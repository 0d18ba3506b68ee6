//! Bringing what a call reads up to date from account proofs.

use crate::access_list::{entries_of, AccessListItem, Entry};
use crate::access_set::{is_access_list, slot_of, AccessModel, StorageAccessList};
use crate::block::BlockId;
use crate::cache::account::{AccountInfo, InfoModel};
use crate::cache::base::lemma_marked_write_is_honest;
use crate::cache::evm_cache::{next_generation, EvmCache};
use crate::cache::layers::LayersModel;
use crate::cache::writes::slot_updates;
use crate::collections::{lemma_take_extend, Key, SortedMap, SortedSet};
use crate::errors::StorageFetchError;
use crate::foreign::{keccak_empty, spec_keccak_empty};
use crate::primitives::{Address, SlotKey, B256, U256};
use vstd::prelude::*;

verus! {

/// What a proof says of an account.
#[derive(Debug, PartialEq, Eq)]
pub struct AccountProof {
    /// The balance.
    pub balance: U256,
    /// The nonce.
    pub nonce: u64,
    /// The hash of the code.
    pub code_hash: B256,
    /// The root of the storage.
    pub storage_hash: B256,
    /// Slots with their values.
    pub slots: Vec<(U256, U256)>,
}

/// An answer to a request for a proof.
pub type ProofAnswer = (Address, Result<AccountProof, StorageFetchError>);

/// Why something could not be brought up to date.
#[derive(Debug, PartialEq, Eq)]
pub enum ReadSetHydrationFailure {
    /// There is nothing to fetch proofs with.
    ProofFetcherUnavailable {
        /// The account.
        address: Address,
    },
    /// No answer came back.
    ProofResultMissing {
        /// The account.
        address: Address,
    },
    /// Several answers came back.
    ProofResultDuplicate {
        /// The account.
        address: Address,
    },
    /// An answer came back that was not asked for.
    ProofResultUnexpected {
        /// The account.
        address: Address,
    },
    /// A proof holds a slot several times.
    StorageSlotDuplicate {
        /// The account.
        address: Address,
        /// The slot.
        slot: U256,
    },
    /// A proof holds a slot that was not asked for.
    StorageSlotUnexpected {
        /// The account.
        address: Address,
        /// The slot.
        slot: U256,
    },
    /// The proof could not be fetched.
    ProofFetch {
        /// The account.
        address: Address,
        /// Why.
        source: StorageFetchError,
    },
    /// The account has code that is not cached.
    RuntimeCodeUnavailable {
        /// The account.
        address: Address,
        /// The hash of the code.
        code_hash: B256,
    },
    /// A proof lacks a slot.
    StorageSlotMissing {
        /// The account.
        address: Address,
        /// The slot.
        slot: U256,
    },
}

/// How often a key occurs.
pub open spec fn occurrences<K>(keys: Seq<K>, key: K) -> nat
    decreases keys.len(),
{
    if keys.len() == 0 {
        0
    } else {
        occurrences(keys.drop_last(), key) + if keys.last() == key {
            1nat
        } else {
            0nat
        }
    }
}

/// What is odd about a key that came back.
pub enum Oddity<K> {
    /// It was not asked for.
    Unexpected(K),
    /// It came back before.
    Repeated(K),
}

/// What is odd about the keys that came back, in order; a key that came back
/// several times is told once.
pub open spec fn oddities<K>(expected: Set<K>, keys: Seq<K>) -> Seq<Oddity<K>>
    decreases keys.len(),
{
    if keys.len() == 0 {
        Seq::empty()
    } else {
        let earlier = oddities(expected, keys.drop_last());
        let key = keys.last();
        if !expected.contains(key) {
            earlier.push(Oddity::Unexpected(key))
        } else if occurrences(keys.drop_last(), key) == 1 {
            earlier.push(Oddity::Repeated(key))
        } else {
            earlier
        }
    }
}

/// A key occurs where it is found.
proof fn lemma_occurs<K>(keys: Seq<K>, i: int)
    requires
        0 <= i < keys.len(),
    ensures
        occurrences(keys, keys[i]) >= 1,
    decreases keys.len(),
{
    if i < keys.len() - 1 {
        lemma_occurs(keys.drop_last(), i);
    }
}

/// A key that occurs once is found in one place.
proof fn lemma_occurs_once<K>(keys: Seq<K>, i: int, j: int)
    requires
        0 <= i < keys.len(),
        0 <= j < keys.len(),
        keys[i] == keys[j],
        occurrences(keys, keys[i]) == 1,
    ensures
        i == j,
    decreases keys.len(),
{
    let last = keys.len() - 1;
    if i < last && j < last {
        lemma_occurs(keys.drop_last(), i);
        assert(keys.drop_last()[i] == keys[i]);
        assert(keys.drop_last()[j] == keys[j]);
        lemma_occurs_once(keys.drop_last(), i, j);
    } else if i < last {
        lemma_occurs(keys.drop_last(), i);
        assert(keys.drop_last()[i] == keys[i]);
    } else if j < last {
        lemma_occurs(keys.drop_last(), j);
        assert(keys.drop_last()[j] == keys[j]);
    }
}

/// Keys that came back, sorted out.
pub struct Collated<K: Key> {
    /// Where each key is that was asked for and came back once.
    pub single: SortedMap<K, usize>,
    /// The keys that were asked for and came back several times.
    pub repeated: SortedSet<K>,
    /// What is odd, in order.
    pub odd: Vec<Oddity<K>>,
}

/// Sorts out the keys that came back.
pub fn collate<K: Key>(expected: &SortedSet<K>, keys: &Vec<K>) -> (r: Collated<K>)
    ensures
        r.odd@ == oddities(expected@, keys@),
        forall|k: K| #[trigger]
            r.repeated@.contains(k) <==> expected@.contains(k) && occurrences(keys@, k) >= 2,
        forall|k: K| #[trigger]
            r.single@.contains_key(k) <==> expected@.contains(k) && occurrences(keys@, k) == 1,
        forall|k: K| #[trigger]
            r.single@.contains_key(k) ==> r.single@[k] < keys@.len() && keys@[r.single@[k] as int]
                == k,
{
    let mut single: SortedMap<K, usize> = SortedMap::new();
    let mut repeated: SortedSet<K> = SortedSet::new();
    let mut odd: Vec<Oddity<K>> = Vec::new();
    let mut i: usize = 0;
    assert(keys@.take(0) =~= Seq::empty());
    while i < keys.len()
        invariant
            i <= keys.len(),
            odd@ == oddities(expected@, keys@.take(i as int)),
            forall|k: K| #[trigger]
                repeated@.contains(k) <==> expected@.contains(k) && occurrences(
                    keys@.take(i as int),
                    k,
                ) >= 2,
            forall|k: K| #[trigger]
                single@.contains_key(k) <==> expected@.contains(k) && occurrences(
                    keys@.take(i as int),
                    k,
                ) == 1,
            forall|k: K| #[trigger]
                single@.contains_key(k) ==> single@[k] < i && keys@[single@[k] as int] == k,
        decreases keys.len() - i,
    {
        let key: K = keys[i];
        let ghost taken = keys@.take(i as int + 1);
        proof {
            assert(taken.drop_last() =~= keys@.take(i as int));
            assert(taken.last() == key);
            assert forall|k: K| k != key implies #[trigger] occurrences(taken, k) == occurrences(
                keys@.take(i as int),
                k,
            ) by {}
        }
        if !expected.contains(&key) {
            odd.push(Oddity::Unexpected(key));
        } else if repeated.contains(&key) {
        } else if single.contains_key(&key) {
            odd.push(Oddity::Repeated(key));
            repeated.insert(key);
            single.remove(&key);
        } else {
            single.insert(key, i);
        }
        i = i + 1;
    }
    assert(keys@.take(i as int) =~= keys@);
    Collated { single, repeated, odd }
}

/// The addresses of answers.
pub open spec fn answer_addresses(answers: Seq<ProofAnswer>) -> Seq<Address> {
    answers.map_values(|answer: ProofAnswer| answer.0)
}

/// The slots of a proof.
pub open spec fn proof_keys(slots: Seq<(U256, U256)>) -> Seq<U256> {
    slots.map_values(|slot: (U256, U256)| slot.0)
}

/// The failures that odd answers come to.
pub open spec fn answer_failures(odd: Seq<Oddity<Address>>) -> Seq<ReadSetHydrationFailure> {
    odd.map_values(
        |oddity: Oddity<Address>|
            match oddity {
                Oddity::Unexpected(address) => ReadSetHydrationFailure::ProofResultUnexpected {
                    address,
                },
                Oddity::Repeated(address) => ReadSetHydrationFailure::ProofResultDuplicate {
                    address,
                },
            },
    )
}

/// The failures that odd slots of a proof come to.
pub open spec fn slot_failures(address: Address, odd: Seq<Oddity<U256>>) -> Seq<
    ReadSetHydrationFailure,
> {
    odd.map_values(
        |oddity: Oddity<U256>|
            match oddity {
                Oddity::Unexpected(slot) => ReadSetHydrationFailure::StorageSlotUnexpected {
                    address,
                    slot,
                },
                Oddity::Repeated(slot) => ReadSetHydrationFailure::StorageSlotDuplicate {
                    address,
                    slot,
                },
            },
    )
}

/// Where a key is found.
pub open spec fn position<K>(keys: Seq<K>, key: K) -> int {
    choose|i: int| 0 <= i < keys.len() && #[trigger] keys[i] == key
}

/// The value of a slot that a proof holds once.
pub open spec fn sole_value(slots: Seq<(U256, U256)>, slot: U256) -> U256 {
    slots[position(proof_keys(slots), slot)].1
}

/// The answer for an account where there is one.
pub open spec fn sole_answer(answers: Seq<ProofAnswer>, address: Address) -> Result<
    AccountProof,
    StorageFetchError,
> {
    answers[position(answer_addresses(answers), address)].1
}

/// What came of bringing accounts up to date.
#[verifier::ext_equal]
pub struct HydrationModel {
    /// The state.
    pub layers: LayersModel,
    /// How many accounts were brought up to date.
    pub accounts: nat,
    /// What failed.
    pub failures: Seq<ReadSetHydrationFailure>,
    /// Accounts with other code than is cached.
    pub code_changes: Seq<(Address, B256, B256)>,
    /// Slots with their new values.
    pub fresh: Seq<(Address, U256, U256)>,
}

impl HydrationModel {
    /// With a failure.
    pub open spec fn failed(self, failure: ReadSetHydrationFailure) -> Self {
        HydrationModel { failures: self.failures.push(failure), ..self }
    }

    /// With several failures.
    pub open spec fn failed_with(self, failures: Seq<ReadSetHydrationFailure>) -> Self {
        HydrationModel { failures: self.failures + failures, ..self }
    }

    /// With the slots asked for of one account, in order: those that the proof
    /// holds once are new values, those that it lacks are failures.
    pub open spec fn with_slots(
        self,
        address: Address,
        wanted: Seq<B256>,
        slots: Seq<(U256, U256)>,
    ) -> Self
        decreases wanted.len(),
    {
        if wanted.len() == 0 {
            self
        } else {
            let before = self.with_slots(address, wanted.drop_last(), slots);
            let slot = slot_of(wanted.last());
            let count = occurrences(proof_keys(slots), slot);
            if count == 0 {
                before.failed(ReadSetHydrationFailure::StorageSlotMissing { address, slot })
            } else if count == 1 {
                HydrationModel {
                    fresh: before.fresh.push((address, slot, sole_value(slots, slot))),
                    ..before
                }
            } else {
                before
            }
        }
    }

    /// Once one account was held against its proof. Other code than is cached is
    /// told and changes nothing; code that is not cached is a failure.
    pub open spec fn with_proof(
        self,
        address: Address,
        wanted: Seq<B256>,
        proof: AccountProof,
    ) -> Self {
        let current = self.layers.local_info(address);
        if current matches Some(info) && info.code_hash != proof.code_hash {
            HydrationModel {
                code_changes: self.code_changes.push(
                    (address, current->0.code_hash, proof.code_hash),
                ),
                ..self
            }
        } else if current is None && proof.code_hash@ != 0 && proof.code_hash
            != spec_keccak_empty() {
            self.failed(
                ReadSetHydrationFailure::RuntimeCodeUnavailable {
                    address,
                    code_hash: proof.code_hash,
                },
            )
        } else {
            let base = match current {
                Some(info) => info,
                None => InfoModel::fresh(),
            };
            let refreshed = HydrationModel {
                layers: self.layers.with_info(
                    address,
                    InfoModel {
                        balance: proof.balance,
                        nonce: proof.nonce,
                        code_hash: proof.code_hash,
                        ..base
                    },
                ),
                accounts: self.accounts + 1,
                ..self
            };
            refreshed.failed_with(
                slot_failures(
                    address,
                    oddities(slots_wanted(wanted), proof_keys(proof.slots@)),
                ),
            ).with_slots(address, wanted, proof.slots@)
        }
    }

    /// Once one account was held against the answers.
    pub open spec fn with_answer(self, entry: Entry, answers: Seq<ProofAnswer>) -> Self {
        let address = entry.0;
        let count = occurrences(answer_addresses(answers), address);
        if count == 0 {
            self.failed(ReadSetHydrationFailure::ProofResultMissing { address })
        } else if count >= 2 {
            self
        } else {
            match sole_answer(answers, address) {
                Err(source) => self.failed(
                    ReadSetHydrationFailure::ProofFetch { address, source },
                ),
                Ok(proof) => self.with_proof(address, entry.1, proof),
            }
        }
    }

    /// Once all accounts were held against the answers, in order.
    pub open spec fn with_answers(self, entries: Seq<Entry>, answers: Seq<ProofAnswer>) -> Self
        decreases entries.len(),
    {
        if entries.len() == 0 {
            self
        } else {
            self.with_answers(entries.drop_last(), answers).with_answer(entries.last(), answers)
        }
    }
}

/// The slots asked for, as a set.
pub open spec fn slots_wanted(wanted: Seq<B256>) -> Set<U256> {
    wanted.map_values(|key: B256| slot_of(key)).to_set()
}

/// The slots asked for.
fn wanted_set(keys: &Vec<B256>) -> (r: SortedSet<U256>)
    ensures
        r@ == slots_wanted(keys@),
{
    let mut wanted: SortedSet<U256> = SortedSet::new();
    let ghost slots = keys@.map_values(|key: B256| slot_of(key));
    let mut i: usize = 0;
    assert(slots.take(0).to_set() =~= Set::empty());
    while i < keys.len()
        invariant
            i <= keys.len(),
            slots == keys@.map_values(|key: B256| slot_of(key)),
            wanted@ == slots.take(i as int).to_set(),
        decreases keys.len() - i,
    {
        proof {
            lemma_take_extend(slots, i as int);
        }
        wanted.insert(keys[i].to_word());
        i = i + 1;
    }
    assert(slots.take(i as int) =~= slots);
    wanted
}

/// What came of bringing what a call reads up to date.
pub struct ReadSetHydrationReport {
    /// The block of the proofs.
    pub block: BlockId,
    /// How many accounts were brought up to date.
    pub accounts_refreshed: usize,
    /// How many slots were brought up to date.
    pub slots_refreshed: usize,
    /// What failed.
    pub failures: Vec<ReadSetHydrationFailure>,
    /// Accounts with other code than is cached: the hash cached, then the one
    /// proved.
    pub code_changes: Vec<(Address, B256, B256)>,
    /// What is still not cached.
    pub missing_after: StorageAccessList,
}

impl ReadSetHydrationReport {
    /// Whether everything is cached and up to date: accounts, slots, code and block
    /// hashes.
    pub fn is_complete(&self) -> (r: bool)
        ensures
            r == (self.failures@.len() == 0 && self.code_changes@.len() == 0
                && self.missing_after@ == AccessModel::empty()),
    {
        let missing: &StorageAccessList = &self.missing_after;
        self.failures.len() == 0 && self.code_changes.len() == 0 && missing.is_empty()
            && missing.code_hashes.is_empty() && missing.block_numbers.is_empty()
    }
}

/// What is told while accounts are brought up to date.
pub struct HydrationLog {
    /// How many accounts were brought up to date.
    pub accounts: usize,
    /// What failed.
    pub failures: Vec<ReadSetHydrationFailure>,
    /// Accounts with other code than is cached.
    pub code_changes: Vec<(Address, B256, B256)>,
    /// Slots with their new values.
    pub fresh: Vec<(Address, U256, U256)>,
}

impl HydrationLog {
    /// With the state.
    pub open spec fn model(self, layers: LayersModel) -> HydrationModel {
        HydrationModel {
            layers,
            accounts: self.accounts as nat,
            failures: self.failures@,
            code_changes: self.code_changes@,
            fresh: self.fresh@,
        }
    }

    /// Notes the slots asked for of one account.
    fn note_slots(&mut self, address: Address, wanted: &Vec<B256>, slots: &Vec<(U256, U256)>)
        ensures
            final(self).accounts == old(self).accounts,
            forall|layers: LayersModel| #[trigger]
                final(self).model(layers) == old(self).model(layers).failed_with(
                    slot_failures(
                        address,
                        oddities(slots_wanted(wanted@), proof_keys(slots@)),
                    ),
                ).with_slots(address, wanted@, slots@),
    {
        let mut keys: Vec<U256> = Vec::new();
        let mut k: usize = 0;
        while k < slots.len()
            invariant
                k <= slots.len(),
                keys@ =~= proof_keys(slots@).take(k as int),
            decreases slots.len() - k,
        {
            keys.push(slots[k].0);
            k = k + 1;
        }
        assert(keys@ =~= proof_keys(slots@));
        let expected: SortedSet<U256> = wanted_set(wanted);
        let collated = collate(&expected, &keys);
        let ghost odd = slot_failures(address, oddities(slots_wanted(wanted@), proof_keys(slots@)));
        let ghost told = self.failures@;
        let mut i: usize = 0;
        while i < collated.odd.len()
            invariant
                i <= collated.odd.len(),
                collated.odd@ == oddities(slots_wanted(wanted@), proof_keys(slots@)),
                odd == slot_failures(address, collated.odd@),
                self.failures@ =~= told + odd.take(i as int),
                *self == (HydrationLog { failures: self.failures, ..*old(self) }),
            decreases collated.odd.len() - i,
        {
            match &collated.odd[i] {
                Oddity::Unexpected(slot) => {
                    self.failures.push(
                        ReadSetHydrationFailure::StorageSlotUnexpected { address, slot: *slot },
                    );
                },
                Oddity::Repeated(slot) => {
                    self.failures.push(
                        ReadSetHydrationFailure::StorageSlotDuplicate { address, slot: *slot },
                    );
                },
            }
            i = i + 1;
        }
        let ghost empty = LayersModel::empty();
        let ghost start = old(self).model(empty).failed_with(odd);
        proof {
            assert(odd.take(i as int) =~= odd);
            assert(wanted@.take(0) =~= Seq::empty());
            assert(self.model(empty) =~= start);
        }
        let mut j: usize = 0;
        while j < wanted.len()
            invariant
                j <= wanted.len(),
                keys@ == proof_keys(slots@),
                expected@ == slots_wanted(wanted@),
                forall|s: U256| #[trigger]
                    collated.repeated@.contains(s) <==> expected@.contains(s) && occurrences(
                        keys@,
                        s,
                    ) >= 2,
                forall|s: U256| #[trigger]
                    collated.single@.contains_key(s) <==> expected@.contains(s) && occurrences(
                        keys@,
                        s,
                    ) == 1,
                forall|s: U256| #[trigger]
                    collated.single@.contains_key(s) ==> collated.single@[s] < keys@.len()
                        && keys@[collated.single@[s] as int] == s,
                self.accounts == old(self).accounts,
                self.model(empty) == start.with_slots(address, wanted@.take(j as int), slots@),
            decreases wanted.len() - j,
        {
            let slot: U256 = wanted[j].to_word();
            let ghost before = self.model(empty);
            proof {
                let all = wanted@.map_values(|key: B256| slot_of(key));
                assert(all[j as int] == slot);
                assert(slots_wanted(wanted@).contains(slot));
                assert(wanted@.take(j as int + 1).drop_last() =~= wanted@.take(j as int));
            }
            if collated.repeated.contains(&slot) {
            } else {
                match collated.single.get(&slot) {
                    None => {
                        self.failures.push(
                            ReadSetHydrationFailure::StorageSlotMissing { address, slot },
                        );
                        assert(self.model(empty) =~= before.failed(
                            ReadSetHydrationFailure::StorageSlotMissing { address, slot },
                        ));
                    },
                    Some(at) => {
                        let value: U256 = slots[*at].1;
                        proof {
                            lemma_sole_value(slots@, *at as int);
                        }
                        self.fresh.push((address, slot, value));
                        assert(self.model(empty) =~= (HydrationModel {
                            fresh: before.fresh.push((address, slot, sole_value(slots@, slot))),
                            ..before
                        }));
                    },
                }
            }
            j = j + 1;
        }
        proof {
            assert(wanted@.take(j as int) =~= wanted@);
            assert forall|layers: LayersModel| #[trigger] self.model(layers) == old(self).model(
                layers,
            ).failed_with(odd).with_slots(address, wanted@, slots@) by {
                lemma_slots_ignore_layers(start, layers, address, wanted@, slots@);
                assert((HydrationModel { layers, ..start }) =~= old(self).model(
                    layers,
                ).failed_with(odd));
                assert(self.model(layers) =~= (HydrationModel { layers, ..self.model(empty) }));
            }
        }
    }
}

/// The slots of a proof are noted whatever the state is.
proof fn lemma_slots_ignore_layers(
    start: HydrationModel,
    layers: LayersModel,
    address: Address,
    wanted: Seq<B256>,
    slots: Seq<(U256, U256)>,
)
    ensures
        (HydrationModel { layers, ..start }).with_slots(address, wanted, slots) == (
        HydrationModel { layers, ..start.with_slots(address, wanted, slots) }),
    decreases wanted.len(),
{
    if wanted.len() > 0 {
        lemma_slots_ignore_layers(start, layers, address, wanted.drop_last(), slots);
    }
}

/// The value of a slot that a proof holds once is the one found there.
proof fn lemma_sole_value(slots: Seq<(U256, U256)>, at: int)
    requires
        0 <= at < slots.len(),
        occurrences(proof_keys(slots), slots[at].0) == 1,
    ensures
        sole_value(slots, slots[at].0) == slots[at].1,
{
    let keys = proof_keys(slots);
    assert(keys[at] == slots[at].0);
    let i = position(keys, keys[at]);
    assert(0 <= i < keys.len() && keys[i] == keys[at]);
    lemma_occurs_once(keys, i, at);
}

/// The answer for an account with one answer is the one found there.
proof fn lemma_sole_answer(answers: Seq<ProofAnswer>, at: int)
    requires
        0 <= at < answers.len(),
        occurrences(answer_addresses(answers), answers[at].0) == 1,
    ensures
        sole_answer(answers, answers[at].0) == answers[at].1,
{
    let keys = answer_addresses(answers);
    assert(keys[at] == answers[at].0);
    let i = position(keys, keys[at]);
    assert(0 <= i < keys.len() && keys[i] == keys[at]);
    lemma_occurs_once(keys, i, at);
}

impl EvmCache {
    /// Holds one account against its proof.
    fn hydrate_account(
        &mut self,
        address: Address,
        wanted: &Vec<B256>,
        proof: &AccountProof,
        log: &mut HydrationLog,
    )
        requires
            old(self).wf(),
            old(log).accounts < usize::MAX,
        ensures
            final(self).wf(),
            final(log).model(final(self).layers@) == old(log).model(old(self).layers@).with_proof(
                address,
                wanted@,
                *proof,
            ),
            final(log).accounts <= old(log).accounts + 1,
            *final(self) == (EvmCache {
                layers: final(self).layers,
                memo: final(self).memo,
                ..*old(self)
            }),
    {
        let ghost target = old(log).model(old(self).layers@).with_proof(address, wanted@, *proof);
        let current: Option<AccountInfo> = self.layers.local_account_info(address);
        if let Some(info) = &current {
            if info.code_hash != proof.code_hash {
                log.code_changes.push((address, info.code_hash, proof.code_hash));
                assert(log.model(self.layers@) =~= target);
                return;
            }
        }
        if current.is_none() && !(proof.code_hash.hi == 0 && proof.code_hash.lo == 0)
            && proof.code_hash != keccak_empty() {
            log.failures.push(
                ReadSetHydrationFailure::RuntimeCodeUnavailable {
                    address,
                    code_hash: proof.code_hash,
                },
            );
            assert(log.model(self.layers@) =~= target);
            return;
        }
        let mut info: AccountInfo = match current {
            Some(info) => info,
            None => AccountInfo::default(),
        };
        info.balance = proof.balance;
        info.nonce = proof.nonce;
        info.code_hash = proof.code_hash;
        self.layers.write_account_info_through(address, info);
        self.memo.mark_dirty(address);
        proof {
            lemma_marked_write_is_honest(
                old(self).memo,
                old(self).layers@,
                self.memo,
                self.layers@,
            );
        }
        log.accounts = log.accounts + 1;
        let ghost counted = *log;
        log.note_slots(address, wanted, &proof.slots);
        proof {
            let after = self.layers@;
            assert(log.model(after) == counted.model(after).failed_with(
                slot_failures(
                    address,
                    oddities(slots_wanted(wanted@), proof_keys(proof.slots@)),
                ),
            ).with_slots(address, wanted@, proof.slots@));
        }
    }

    /// Brings accounts up to date from answers, in order. The slots that changed
    /// are noted, not written.
    pub fn hydrate_accounts(
        &mut self,
        items: &Vec<AccessListItem>,
        answers: &Vec<ProofAnswer>,
        log: &mut HydrationLog,
    )
        requires
            old(self).wf(),
            old(log).accounts == 0,
        ensures
            final(self).wf(),
            final(log).model(final(self).layers@) == old(log).model(
                old(self).layers@,
            ).failed_with(
                answer_failures(
                    oddities(item_addresses(items@).to_set(), answer_addresses(answers@)),
                ),
            ).with_answers(entries_of(items@), answers@),
            *final(self) == (EvmCache {
                layers: final(self).layers,
                memo: final(self).memo,
                ..*old(self)
            }),
    {
        let ghost entries = entries_of(items@);
        let ghost names = item_addresses(items@);
        let mut expected: SortedSet<Address> = SortedSet::new();
        let mut k: usize = 0;
        assert(names.take(0).to_set() =~= Set::empty());
        while k < items.len()
            invariant
                k <= items.len(),
                names == item_addresses(items@),
                expected@ == names.take(k as int).to_set(),
            decreases items.len() - k,
        {
            proof {
                lemma_take_extend(names, k as int);
            }
            expected.insert(items[k].address);
            k = k + 1;
        }
        assert(names.take(k as int) =~= names);
        let mut keys: Vec<Address> = Vec::new();
        let mut m: usize = 0;
        while m < answers.len()
            invariant
                m <= answers.len(),
                keys@ =~= answer_addresses(answers@).take(m as int),
            decreases answers.len() - m,
        {
            keys.push(answers[m].0);
            m = m + 1;
        }
        assert(keys@ =~= answer_addresses(answers@));
        let collated = collate(&expected, &keys);
        let ghost odd = answer_failures(collated.odd@);
        let ghost told = log.failures@;
        let mut i: usize = 0;
        while i < collated.odd.len()
            invariant
                i <= collated.odd.len(),
                odd == answer_failures(collated.odd@),
                log.failures@ =~= told + odd.take(i as int),
                *log == (HydrationLog { failures: log.failures, ..*old(log) }),
            decreases collated.odd.len() - i,
        {
            match &collated.odd[i] {
                Oddity::Unexpected(address) => {
                    log.failures.push(
                        ReadSetHydrationFailure::ProofResultUnexpected { address: *address },
                    );
                },
                Oddity::Repeated(address) => {
                    log.failures.push(
                        ReadSetHydrationFailure::ProofResultDuplicate { address: *address },
                    );
                },
            }
            i = i + 1;
        }
        let ghost start = old(log).model(old(self).layers@).failed_with(odd);
        proof {
            assert(odd.take(i as int) =~= odd);
            assert(entries.take(0) =~= Seq::empty());
            assert(log.model(self.layers@) =~= start);
        }
        let mut j: usize = 0;
        while j < items.len()
            invariant
                j <= items.len(),
                entries == entries_of(items@),
                names == item_addresses(items@),
                expected@ == names.to_set(),
                keys@ == answer_addresses(answers@),
                forall|a: Address| #[trigger]
                    collated.repeated@.contains(a) <==> expected@.contains(a) && occurrences(
                        keys@,
                        a,
                    ) >= 2,
                forall|a: Address| #[trigger]
                    collated.single@.contains_key(a) <==> expected@.contains(a) && occurrences(
                        keys@,
                        a,
                    ) == 1,
                forall|a: Address| #[trigger]
                    collated.single@.contains_key(a) ==> collated.single@[a] < keys@.len()
                        && keys@[collated.single@[a] as int] == a,
                self.wf(),
                log.accounts <= j,
                log.model(self.layers@) == start.with_answers(entries.take(j as int), answers@),
                *self == (EvmCache { layers: self.layers, memo: self.memo, ..*old(self) }),
            decreases items.len() - j,
        {
            let address: Address = items[j].address;
            let ghost before = log.model(self.layers@);
            proof {
                assert(names[j as int] == address);
                assert(names.to_set().contains(address));
                assert(entries.take(j as int + 1).drop_last() =~= entries.take(j as int));
                assert(entries.take(j as int + 1).last() == items@[j as int]@);
            }
            if collated.repeated.contains(&address) {
            } else {
                match collated.single.get(&address) {
                    None => {
                        log.failures.push(
                            ReadSetHydrationFailure::ProofResultMissing { address },
                        );
                        assert(log.model(self.layers@) =~= before.failed(
                            ReadSetHydrationFailure::ProofResultMissing { address },
                        ));
                    },
                    Some(at) => {
                        proof {
                            lemma_sole_answer(answers@, *at as int);
                        }
                        match &answers[*at].1 {
                            Err(source) => {
                                log.failures.push(
                                    ReadSetHydrationFailure::ProofFetch {
                                        address,
                                        source: source.clone(),
                                    },
                                );
                                assert(log.model(self.layers@) =~= before.failed(
                                    ReadSetHydrationFailure::ProofFetch {
                                        address,
                                        source: *source,
                                    },
                                ));
                            },
                            Ok(proof) => {
                                self.hydrate_account(
                                    address,
                                    &items[j].storage_keys,
                                    proof,
                                    log,
                                );
                            },
                        }
                    },
                }
            }
            j = j + 1;
        }
        assert(entries.take(j as int) =~= entries);
    }
}

/// The addresses of entries.
pub open spec fn item_addresses(items: Seq<AccessListItem>) -> Seq<Address> {
    items.map_values(|item: AccessListItem| item.address)
}

/// What of these reads is not cached.
pub open spec fn missing_reads(
    layers: LayersModel,
    block_hashes: Map<u64, B256>,
    required: AccessModel,
) -> AccessModel {
    AccessModel {
        accounts: required.accounts.filter(
            |a: Address| !layers.overlay.contains_key(a) && !layers.accounts.contains_key(a),
        ),
        code_hashes: required.code_hashes.filter(|h: B256| layers.code(h) is None),
        slots: required.slots.filter(|key: SlotKey| layers.slot(key.address, key.slot) is None),
        block_numbers: required.block_numbers.filter(|n: u64| !block_hashes.contains_key(n)),
    }
}

impl EvmCache {
    /// What of these reads is not cached.
    pub fn missing_read_set(&mut self, required: &StorageAccessList) -> (r: StorageAccessList)
        requires
            old(self).wf(),
        ensures
            final(self).wf(),
            r@ == missing_reads(old(self).layers@, old(self).block_hashes@, required@),
            *final(self) == (EvmCache { memo: final(self).memo, ..*old(self) }),
    {
        let snapshot = self.snapshot();
        let ghost layers = old(self).layers@;
        let ghost hashes = old(self).block_hashes@;
        let ghost absent = missing_reads(layers, hashes, required@);
        let mut missing = StorageAccessList::default();
        let n: usize = required.accounts.len();
        let ghost accounts = required.accounts.order();
        let mut i: usize = 0;
        while i < n
            invariant
                i <= n == accounts.len(),
                accounts == required.accounts.order(),
                layers == self.layers@,
                absent.accounts == required.accounts@.filter(
                    |a: Address|
                        !layers.overlay.contains_key(a) && !layers.accounts.contains_key(a),
                ),
                required.accounts@ == accounts.to_set(),
                missing.accounts@ == accounts.take(i as int).to_set().intersect(absent.accounts),
                missing.code_hashes@ == Set::<B256>::empty(),
                missing.slots@ == Set::<SlotKey>::empty(),
                missing.block_numbers@ == Set::<u64>::empty(),
            decreases n - i,
        {
            proof {
                lemma_take_extend(accounts, i as int);
                assert(accounts.to_set().contains(accounts[i as int]));
            }
            let address: Address = required.accounts.at(i);
            if !self.layers.overlay.contains_key(&address) && !self.layers.accounts.contains_key(
                &address,
            ) {
                missing.accounts.insert(address);
            }
            assert(missing.accounts@ =~= accounts.take(i as int + 1).to_set().intersect(
                absent.accounts,
            ));
            i = i + 1;
        }
        assert(accounts.take(n as int) =~= accounts);
        assert(missing.accounts@ =~= absent.accounts);
        let m: usize = required.code_hashes.len();
        let ghost codes = required.code_hashes.order();
        let mut j: usize = 0;
        while j < m
            invariant
                j <= m == codes.len(),
                codes == required.code_hashes.order(),
                snapshot.mirrors(layers),
                absent.code_hashes == required.code_hashes@.filter(
                    |h: B256| layers.code(h) is None,
                ),
                required.code_hashes@ == codes.to_set(),
                missing.accounts@ == absent.accounts,
                missing.code_hashes@ == codes.take(j as int).to_set().intersect(
                    absent.code_hashes,
                ),
                missing.slots@ == Set::<SlotKey>::empty(),
                missing.block_numbers@ == Set::<u64>::empty(),
            decreases m - j,
        {
            proof {
                lemma_take_extend(codes, j as int);
                assert(codes.to_set().contains(codes[j as int]));
            }
            let hash: B256 = required.code_hashes.at(j);
            assert(snapshot.spec_code(hash) == layers.code(hash));
            if snapshot.code(hash).is_none() {
                missing.code_hashes.insert(hash);
            }
            assert(missing.code_hashes@ =~= codes.take(j as int + 1).to_set().intersect(
                absent.code_hashes,
            ));
            j = j + 1;
        }
        assert(codes.take(m as int) =~= codes);
        assert(missing.code_hashes@ =~= absent.code_hashes);
        let k: usize = required.slots.len();
        let ghost slots = required.slots.order();
        let mut l: usize = 0;
        while l < k
            invariant
                l <= k == slots.len(),
                slots == required.slots.order(),
                layers == self.layers@,
                absent.slots == required.slots@.filter(
                    |key: SlotKey| layers.slot(key.address, key.slot) is None,
                ),
                required.slots@ == slots.to_set(),
                missing.accounts@ == absent.accounts,
                missing.code_hashes@ == absent.code_hashes,
                missing.slots@ == slots.take(l as int).to_set().intersect(absent.slots),
                missing.block_numbers@ == Set::<u64>::empty(),
            decreases k - l,
        {
            proof {
                lemma_take_extend(slots, l as int);
                assert(slots.to_set().contains(slots[l as int]));
            }
            let key: SlotKey = required.slots.at(l);
            if self.layers.cached_storage_value(key.address, key.slot).is_none() {
                missing.slots.insert(key);
            }
            assert(missing.slots@ =~= slots.take(l as int + 1).to_set().intersect(absent.slots));
            l = l + 1;
        }
        assert(slots.take(k as int) =~= slots);
        assert(missing.slots@ =~= absent.slots);
        let p: usize = required.block_numbers.len();
        let ghost numbers = required.block_numbers.order();
        let mut q: usize = 0;
        while q < p
            invariant
                q <= p == numbers.len(),
                numbers == required.block_numbers.order(),
                hashes == self.block_hashes@,
                absent.block_numbers == required.block_numbers@.filter(
                    |n: u64| !hashes.contains_key(n),
                ),
                required.block_numbers@ == numbers.to_set(),
                missing.accounts@ == absent.accounts,
                missing.code_hashes@ == absent.code_hashes,
                missing.slots@ == absent.slots,
                missing.block_numbers@ == numbers.take(q as int).to_set().intersect(
                    absent.block_numbers,
                ),
            decreases p - q,
        {
            proof {
                lemma_take_extend(numbers, q as int);
                assert(numbers.to_set().contains(numbers[q as int]));
            }
            let number: u64 = required.block_numbers.at(q);
            if !self.block_hashes.contains_key(&number) {
                missing.block_numbers.insert(number);
            }
            assert(missing.block_numbers@ =~= numbers.take(q as int + 1).to_set().intersect(
                absent.block_numbers,
            ));
            q = q + 1;
        }
        assert(numbers.take(p as int) =~= numbers);
        assert(missing.block_numbers@ =~= absent.block_numbers);
        assert(missing@ =~= absent);
        missing
    }

    /// Brings what a call reads up to date from answers.
    pub fn absorb_proofs(
        &mut self,
        required: &StorageAccessList,
        items: &Vec<AccessListItem>,
        answers: &Vec<ProofAnswer>,
    ) -> (r: ReadSetHydrationReport)
        requires
            old(self).wf(),
        ensures
            final(self).wf(),
            old(self).is_hydrated(*final(self), required@, entries_of(items@), answers@, r),
    {
        let mut log = HydrationLog {
            accounts: 0,
            failures: Vec::new(),
            code_changes: Vec::new(),
            fresh: Vec::new(),
        };
        let ghost start = log.model(self.layers@);
        proof {
            assert(start =~= HydrationModel::start(self.layers@));
        }
        self.hydrate_accounts(items, answers, &mut log);
        let ghost reached = log.model(self.layers@);
        proof {
            assert(item_addresses(items@) =~= entry_names(entries_of(items@)));
            assert(reached == hydration_of(old(self).layers@, entries_of(items@), answers@));
        }
        let ghost middle = *self;
        self.inject_storage_batch_fresh(log.fresh.as_slice());
        let ghost written = *self;
        let missing_after = self.missing_read_set(required);
        ReadSetHydrationReport {
            block: self.context.block,
            accounts_refreshed: log.accounts,
            slots_refreshed: log.fresh.len(),
            failures: log.failures,
            code_changes: log.code_changes,
            missing_after,
        }
    }

    /// Whether what a call reads was brought up to date from answers.
    pub open spec fn is_hydrated(
        self,
        after: Self,
        required: AccessModel,
        entries: Seq<Entry>,
        answers: Seq<ProofAnswer>,
        r: ReadSetHydrationReport,
    ) -> bool {
        let model = hydration_of(self.layers@, entries, answers);
        &&& after.layers@ == model.layers.updated_all(slot_updates(model.fresh))
        &&& after.snapshot_generation == if model.fresh.len() == 0 {
            self.snapshot_generation
        } else {
            next_generation(self.snapshot_generation)
        }
        &&& after.code_seeds@ == self.code_seeds@
        &&& after == (EvmCache {
            layers: after.layers,
            memo: after.memo,
            code_seeds: after.code_seeds,
            snapshot_generation: after.snapshot_generation,
            ..self
        })
        &&& r.block == self.context.block
        &&& r.accounts_refreshed == model.accounts
        &&& r.slots_refreshed == model.fresh.len()
        &&& r.failures@ == model.failures
        &&& r.code_changes@ == model.code_changes
        &&& r.missing_after@ == missing_reads(after.layers@, self.block_hashes@, required)
    }
}

impl HydrationModel {
    /// Nothing yet.
    pub open spec fn start(layers: LayersModel) -> Self {
        HydrationModel {
            layers,
            accounts: 0,
            failures: Seq::empty(),
            code_changes: Seq::empty(),
            fresh: Seq::empty(),
        }
    }
}

/// The accounts that entries are about.
pub open spec fn entry_names(entries: Seq<Entry>) -> Seq<Address> {
    entries.map_values(|entry: Entry| entry.0)
}

/// What comes of holding entries against answers.
pub open spec fn hydration_of(
    layers: LayersModel,
    entries: Seq<Entry>,
    answers: Seq<ProofAnswer>,
) -> HydrationModel {
    HydrationModel::start(layers).failed_with(
        answer_failures(oddities(entry_names(entries).to_set(), answer_addresses(answers))),
    ).with_answers(entries, answers)
}

/// What is asked for, entry by entry.
pub open spec fn is_proof_request(asked: Seq<(Address, Vec<U256>)>, entries: Seq<Entry>) -> bool {
    &&& asked.len() == entries.len()
    &&& forall|i: int|
        0 <= i < asked.len() ==> (#[trigger] asked[i]).0 == entries[i].0 && asked[i].1@
            == entries[i].1.map_values(|key: B256| slot_of(key))
}

/// What is asked for, entry by entry.
fn proof_requests(items: &Vec<AccessListItem>) -> (r: Vec<(Address, Vec<U256>)>)
    ensures
        is_proof_request(r@, entries_of(items@)),
{
    let mut asked: Vec<(Address, Vec<U256>)> = Vec::new();
    let mut i: usize = 0;
    while i < items.len()
        invariant
            i <= items.len(),
            asked@.len() == i,
            forall|j: int|
                0 <= j < asked@.len() ==> (#[trigger] asked@[j]).0 == items@[j].address
                    && asked@[j].1@ == items@[j].storage_keys@.map_values(
                    |key: B256| slot_of(key),
                ),
        decreases items.len() - i,
    {
        let keys: &Vec<B256> = &items[i].storage_keys;
        let mut slots: Vec<U256> = Vec::new();
        let ghost whole = keys@.map_values(|key: B256| slot_of(key));
        let mut k: usize = 0;
        while k < keys.len()
            invariant
                k <= keys.len(),
                whole == keys@.map_values(|key: B256| slot_of(key)),
                slots@ =~= whole.take(k as int),
            decreases keys.len() - k,
        {
            slots.push(U256 { hi: keys[k].hi, lo: keys[k].lo });
            k = k + 1;
        }
        assert(slots@ =~= whole);
        asked.push((items[i].address, slots));
        i = i + 1;
    }
    proof {
        let entries = entries_of(items@);
        assert forall|j: int| 0 <= j < asked@.len() implies (#[trigger] asked@[j]).0
            == entries[j].0 && asked@[j].1@ == entries[j].1.map_values(
            |key: B256| slot_of(key),
        ) by {
            assert(entries[j] == items@[j]@);
        }
    }
    asked
}

/// The failures where there is nothing to fetch proofs with.
pub open spec fn unprovable(entries: Seq<Entry>) -> Seq<ReadSetHydrationFailure> {
    entries.map_values(
        |entry: Entry|
            ReadSetHydrationFailure::ProofFetcherUnavailable { address: entry.0 },
    )
}

impl EvmCache {
    /// Brings what a call reads up to date, from proofs at the pinned block.
    ///
    /// Code and block hashes are never fetched: where they are not cached they
    /// stay missing.
    pub fn hydrate_read_set<P>(&mut self, required: &StorageAccessList, fetcher: &Option<P>) -> (r:
        ReadSetHydrationReport) where
        P: Fn(Vec<(Address, Vec<U256>)>, BlockId) -> Vec<ProofAnswer>,

        requires
            old(self).wf(),
            fetcher matches Some(fetch) ==> forall|asked: Vec<(Address, Vec<U256>)>|
                call_requires(*fetch, (asked, old(self).context.block)),
        ensures
            final(self).wf(),
            exists|entries: Seq<Entry>| #[trigger]
                is_access_list(required@, entries) && old(self).is_hydration(
                    *final(self),
                    required@,
                    entries,
                    *fetcher,
                    r,
                ),
    {
        let list = required.to_eip2930();
        let items: Vec<AccessListItem> = list.items;
        let ghost entries = entries_of(items@);
        assert(is_access_list(required@, entries));
        if items.len() == 0 {
            let missing_after = self.missing_read_set(required);
            return ReadSetHydrationReport {
                block: self.context.block,
                accounts_refreshed: 0,
                slots_refreshed: 0,
                failures: Vec::new(),
                code_changes: Vec::new(),
                missing_after,
            };
        }
        let fetch = match fetcher {
            Some(fetch) => fetch,
            None => {
                let mut failures: Vec<ReadSetHydrationFailure> = Vec::new();
                let mut i: usize = 0;
                while i < items.len()
                    invariant
                        i <= items.len(),
                        entries == entries_of(items@),
                        failures@ =~= unprovable(entries).take(i as int),
                    decreases items.len() - i,
                {
                    failures.push(
                        ReadSetHydrationFailure::ProofFetcherUnavailable {
                            address: items[i].address,
                        },
                    );
                    i = i + 1;
                }
                assert(failures@ =~= unprovable(entries));
                return ReadSetHydrationReport {
                    block: self.context.block,
                    accounts_refreshed: 0,
                    slots_refreshed: 0,
                    failures,
                    code_changes: Vec::new(),
                    missing_after: StorageAccessList {
                        accounts: required.accounts.copy(),
                        code_hashes: required.code_hashes.copy(),
                        slots: required.slots.copy(),
                        block_numbers: required.block_numbers.copy(),
                    },
                };
            },
        };
        let asked: Vec<(Address, Vec<U256>)> = proof_requests(&items);
        let ghost request = asked;
        let answers: Vec<ProofAnswer> = fetch(asked, self.context.block);
        assert(call_ensures(fetcher->0, (request, old(self).context.block), answers));
        self.absorb_proofs(required, &items, &answers)
    }

    /// Whether what a call reads was brought up to date. Where nothing is asked
    /// for, or there is nothing to fetch with, only the report says so.
    pub open spec fn is_hydration<P>(
        self,
        after: Self,
        required: AccessModel,
        entries: Seq<Entry>,
        fetcher: Option<P>,
        r: ReadSetHydrationReport,
    ) -> bool where P: Fn(Vec<(Address, Vec<U256>)>, BlockId) -> Vec<ProofAnswer> {
        if entries.len() == 0 {
            &&& after == (EvmCache { memo: after.memo, ..self })
            &&& r.block == self.context.block
            &&& r.accounts_refreshed == 0
            &&& r.slots_refreshed == 0
            &&& r.failures@.len() == 0
            &&& r.code_changes@.len() == 0
            &&& r.missing_after@ == missing_reads(self.layers@, self.block_hashes@, required)
        } else if fetcher is None {
            &&& after == self
            &&& r.block == self.context.block
            &&& r.accounts_refreshed == 0
            &&& r.slots_refreshed == 0
            &&& r.failures@ == unprovable(entries)
            &&& r.code_changes@.len() == 0
            &&& r.missing_after@ == required
        } else {
            exists|asked: Vec<(Address, Vec<U256>)>, answers: Vec<ProofAnswer>| #[trigger]
                call_ensures(fetcher->0, (asked, self.context.block), answers)
                    && is_proof_request(asked@, entries) && self.is_hydrated(
                    after,
                    required,
                    entries,
                    answers@,
                    r,
                )
        }
    }
}

/// Where nothing of some reads is missing, every one of them can be answered from
/// the cache: every account, slot, code and block hash.
pub proof fn law_nothing_missing_means_cached(
    layers: LayersModel,
    block_hashes: Map<u64, B256>,
    required: AccessModel,
)
    requires
        missing_reads(layers, block_hashes, required) == AccessModel::empty(),
    ensures
        forall|a: Address| #[trigger]
            required.accounts.contains(a) ==> layers.overlay.contains_key(a)
                || layers.accounts.contains_key(a),
        forall|key: SlotKey| #[trigger]
            required.slots.contains(key) ==> layers.slot(key.address, key.slot) is Some,
        forall|hash: B256| #[trigger]
            required.code_hashes.contains(hash) ==> layers.code(hash) is Some,
        forall|number: u64| #[trigger]
            required.block_numbers.contains(number) ==> block_hashes.contains_key(number),
{
    let missing = missing_reads(layers, block_hashes, required);
    assert forall|a: Address| #[trigger] required.accounts.contains(a) implies
        layers.overlay.contains_key(a) || layers.accounts.contains_key(a) by {
        assert(!missing.accounts.contains(a));
    }
    assert forall|key: SlotKey| #[trigger] required.slots.contains(key) implies layers.slot(
        key.address,
        key.slot,
    ) is Some by {
        assert(!missing.slots.contains(key));
    }
    assert forall|hash: B256| #[trigger] required.code_hashes.contains(hash) implies layers.code(
        hash,
    ) is Some by {
        assert(!missing.code_hashes.contains(hash));
    }
    assert forall|number: u64| #[trigger] required.block_numbers.contains(number) implies
        block_hashes.contains_key(number) by {
        assert(!missing.block_numbers.contains(number));
    }
}

} // verus!
