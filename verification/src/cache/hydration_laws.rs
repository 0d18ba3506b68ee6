//! What bringing reads up to date from proofs leaves in the cache.

use crate::access_list::Entry;
use crate::access_set::{slot_of, AccessModel};
use crate::cache::account::InfoModel;
use crate::cache::evm_cache::EvmCache;
use crate::cache::hydration::{
    answer_addresses, answer_failures, entry_names, hydration_of, missing_reads, occurrences,
    oddities, position, proof_keys, slot_failures, slots_wanted, sole_answer, sole_value,
    AccountProof, HydrationModel, Oddity, ProofAnswer, ReadSetHydrationFailure,
    ReadSetHydrationReport,
};
use crate::cache::layers::LayersModel;
use crate::cache::update_laws::{is_last_value, law_slot_batches_are_read_back};
use crate::foreign::spec_keccak_empty;
use crate::primitives::{Address, SlotKey, B256, U256};
use vstd::prelude::*;

verus! {

/// Whether a key is found at one place, and nowhere else.
pub open spec fn only_at<K>(keys: Seq<K>, key: K, at: int) -> bool {
    &&& 0 <= at < keys.len()
    &&& keys[at] == key
    &&& forall|i: int| 0 <= i < keys.len() && i != at ==> #[trigger] keys[i] != key
}

/// A key that is found nowhere occurs never, one that is found at one place once, and
/// one that is found at two places several times.
pub proof fn law_occurrences_count_places<K>(keys: Seq<K>, key: K)
    ensures
        occurrences(keys, key) == 0 <==> !keys.contains(key),
        forall|at: int| #[trigger] only_at(keys, key, at) ==> occurrences(keys, key) == 1,
        forall|i: int, j: int|
            0 <= i < j < keys.len() && #[trigger] keys[i] == key && #[trigger] keys[j] == key
                ==> occurrences(keys, key) >= 2,
        occurrences(keys, key) <= keys.len(),
    decreases keys.len(),
{
    if keys.len() > 0 {
        let fewer = keys.drop_last();
        let last = keys.len() - 1;
        law_occurrences_count_places(fewer, key);
        assert(keys.last() == keys[last]);
        assert forall|i: int| 0 <= i < fewer.len() implies #[trigger] fewer[i] == keys[i] by {}
        if keys.contains(key) {
            let i = keys.index_of(key);
            if i < last {
                assert(fewer[i] == key);
            }
        }
        if fewer.contains(key) {
            let i = fewer.index_of(key);
            assert(keys[i] == key);
        }
        assert forall|at: int| #[trigger] only_at(keys, key, at) implies occurrences(keys, key)
            == 1 by {
            if at < last {
                assert forall|i: int| 0 <= i < fewer.len() && i != at implies #[trigger] fewer[i]
                    != key by {
                    assert(keys[i] != key);
                }
                assert(only_at(fewer, key, at));
                assert(keys[last] != key);
            } else {
                assert(!fewer.contains(key)) by {
                    if fewer.contains(key) {
                        let i = fewer.index_of(key);
                        assert(keys[i] != key);
                    }
                }
            }
        }
        assert forall|i: int, j: int|
            0 <= i < j < keys.len() && #[trigger] keys[i] == key && #[trigger] keys[j]
                == key implies occurrences(keys, key) >= 2 by {
            if j < last {
                assert(fewer[i] == key && fewer[j] == key);
            } else {
                assert(fewer[i] == key);
                assert(fewer.contains(key));
            }
        }
    }
}

/// The answer, or the value, at the only place of its key.
proof fn lemma_sole(answers: Seq<ProofAnswer>, address: Address, at: int)
    requires
        only_at(answer_addresses(answers), address, at),
    ensures
        occurrences(answer_addresses(answers), address) == 1,
        sole_answer(answers, address) == answers[at].1,
{
    let keys = answer_addresses(answers);
    law_occurrences_count_places(keys, address);
    let i = position(keys, address);
    assert(keys[at] == address);
    assert(0 <= i < keys.len() && keys[i] == address);
    assert(i == at);
}

/// The value at the only place of its slot.
proof fn lemma_sole_slot(slots: Seq<(U256, U256)>, slot: U256, at: int)
    requires
        only_at(proof_keys(slots), slot, at),
    ensures
        occurrences(proof_keys(slots), slot) == 1,
        sole_value(slots, slot) == slots[at].1,
{
    let keys = proof_keys(slots);
    law_occurrences_count_places(keys, slot);
    let i = position(keys, slot);
    assert(keys[at] == slot);
    assert(0 <= i < keys.len() && keys[i] == slot);
    assert(i == at);
}

/// Whether a proof can be taken for an account: it has the code that is cached, or
/// no code where nothing is cached.
pub open spec fn fits(layers: LayersModel, address: Address, code_hash: B256) -> bool {
    match layers.local_info(address) {
        Some(info) => info.code_hash == code_hash,
        None => code_hash@ == 0 || code_hash == spec_keccak_empty(),
    }
}

/// What an account holds of a proof.
pub open spec fn holds_proof(info: Option<InfoModel>, proof: AccountProof) -> bool {
    info matches Some(info) && info.balance == proof.balance && info.nonce == proof.nonce
}

/// Whether an account and its slots read alike in two states.
pub open spec fn reads_alike(one: LayersModel, another: LayersModel, address: Address) -> bool {
    &&& one.info(address) == another.info(address)
    &&& one.local_info(address) == another.local_info(address)
    &&& forall|s: U256| #[trigger] one.slot(address, s) == another.slot(address, s)
}

/// What noting slots leaves of the rest.
proof fn lemma_noted_slots(
    start: HydrationModel,
    address: Address,
    wanted: Seq<B256>,
    slots: Seq<(U256, U256)>,
)
    ensures
        ({
            let noted = start.with_slots(address, wanted, slots);
            &&& noted.layers == start.layers
            &&& noted.accounts == start.accounts
            &&& noted.code_changes == start.code_changes
            &&& start.fresh.is_prefix_of(noted.fresh)
            &&& start.failures.is_prefix_of(noted.failures)
            &&& forall|i: int|
                start.fresh.len() <= i < noted.fresh.len() ==> (#[trigger] noted.fresh[i]).0
                    == address && occurrences(proof_keys(slots), noted.fresh[i].1) == 1
                    && noted.fresh[i].2 == sole_value(slots, noted.fresh[i].1)
            &&& forall|k: int|
                0 <= k < wanted.len() && occurrences(
                    proof_keys(slots),
                    slot_of(#[trigger] wanted[k]),
                ) == 1 ==> noted.fresh.contains(
                    (address, slot_of(wanted[k]), sole_value(slots, slot_of(wanted[k]))),
                )
            &&& forall|k: int|
                0 <= k < wanted.len() && occurrences(
                    proof_keys(slots),
                    slot_of(#[trigger] wanted[k]),
                ) == 0 ==> noted.failures.contains(
                    ReadSetHydrationFailure::StorageSlotMissing {
                        address,
                        slot: slot_of(wanted[k]),
                    },
                )
        }),
    decreases wanted.len(),
{
    if wanted.len() > 0 {
        let fewer = wanted.drop_last();
        lemma_noted_slots(start, address, fewer, slots);
        let before = start.with_slots(address, fewer, slots);
        let noted = start.with_slots(address, wanted, slots);
        let last = wanted.len() - 1;
        let slot = slot_of(wanted.last());
        let missing = ReadSetHydrationFailure::StorageSlotMissing { address, slot };
        let value = (address, slot, sole_value(slots, slot));
        assert(wanted[last] == wanted.last());
        let count = occurrences(proof_keys(slots), slot);
        if count == 1 {
            assert(noted.fresh[before.fresh.len() as int] == value);
        }
        if count == 0 {
            assert(noted.failures[before.failures.len() as int] == missing);
        }
        assert(before.fresh.is_prefix_of(noted.fresh));
        assert(before.failures.is_prefix_of(noted.failures));
        lemma_prefixes(start.fresh, before.fresh, noted.fresh);
        lemma_prefixes(start.failures, before.failures, noted.failures);
        assert forall|k: int|
            0 <= k < wanted.len() && occurrences(
                proof_keys(slots),
                slot_of(#[trigger] wanted[k]),
            ) == 1 implies noted.fresh.contains(
            (address, slot_of(wanted[k]), sole_value(slots, slot_of(wanted[k]))),
        ) by {
            if k < last {
                assert(fewer[k] == wanted[k]);
            }
        }
        assert forall|k: int|
            0 <= k < wanted.len() && occurrences(
                proof_keys(slots),
                slot_of(#[trigger] wanted[k]),
            ) == 0 implies noted.failures.contains(
            ReadSetHydrationFailure::StorageSlotMissing { address, slot: slot_of(wanted[k]) },
        ) by {
            if k < last {
                assert(fewer[k] == wanted[k]);
            }
        }
        assert forall|i: int| start.fresh.len() <= i < noted.fresh.len() implies (
        #[trigger] noted.fresh[i]).0 == address && occurrences(
            proof_keys(slots),
            noted.fresh[i].1,
        ) == 1 && noted.fresh[i].2 == sole_value(slots, noted.fresh[i].1) by {
            if i < before.fresh.len() {
                assert(noted.fresh[i] == before.fresh[i]);
            }
        }
    }
}

/// A prefix of a prefix is a prefix, and what a prefix contains the whole contains.
proof fn lemma_prefixes<A>(one: Seq<A>, two: Seq<A>, three: Seq<A>)
    requires
        one.is_prefix_of(two),
        two.is_prefix_of(three),
    ensures
        one.is_prefix_of(three),
        forall|x: A| two.contains(x) ==> #[trigger] three.contains(x),
        forall|x: A| one.contains(x) ==> #[trigger] three.contains(x),
{
    assert(one =~= three.subrange(0, one.len() as int)) by {
        assert forall|i: int| 0 <= i < one.len() implies one[i] == three[i] by {
            assert(one[i] == two[i]);
            assert(two[i] == three[i]);
        }
    }
    assert forall|x: A| two.contains(x) implies #[trigger] three.contains(x) by {
        let i = two.index_of(x);
        assert(three[i] == x);
    }
    assert forall|x: A| one.contains(x) implies #[trigger] three.contains(x) by {
        let i = one.index_of(x);
        assert(three[i] == x);
    }
}

/// The proof that the answers hold for an account, where there is one answer for it
/// and that is a proof.
pub open spec fn proof_for(answers: Seq<ProofAnswer>, address: Address) -> Option<AccountProof> {
    if occurrences(answer_addresses(answers), address) == 1 {
        match sole_answer(answers, address) {
            Ok(proof) => Some(proof),
            Err(_) => None,
        }
    } else {
        None
    }
}

/// What holding an account against the answers leaves of an account.
proof fn lemma_answered(
    before: HydrationModel,
    entry: Entry,
    answers: Seq<ProofAnswer>,
    address: Address,
)
    ensures
        ({
            let after = before.with_answer(entry, answers);
            let proof = proof_for(answers, address);
            &&& before.fresh.is_prefix_of(after.fresh)
            &&& before.failures.is_prefix_of(after.failures)
            &&& before.code_changes.is_prefix_of(after.code_changes)
            &&& entry.0 != address || proof is None || !fits(
                before.layers,
                address,
                proof->0.code_hash,
            ) ==> reads_alike(before.layers, after.layers, address)
            &&& entry.0 == address && proof is Some && fits(
                before.layers,
                address,
                proof->0.code_hash,
            ) ==> holds_proof(after.layers.info(address), proof->0) && holds_proof(
                after.layers.local_info(address),
                proof->0,
            ) && after.layers.local_info(address)->0.code == match before.layers.local_info(
                address,
            ) {
                Some(info) => info.code,
                None => Some(Seq::empty()),
            }
            &&& forall|i: int|
                before.fresh.len() <= i < after.fresh.len() ==> {
                    let noted = #[trigger] after.fresh[i];
                    let known = proof_for(answers, noted.0);
                    &&& known is Some
                    &&& occurrences(proof_keys(known->0.slots@), noted.1) == 1
                    &&& noted.2 == sole_value(known->0.slots@, noted.1)
                }
        }),
{
    let name = entry.0;
    if let Some(proof) = proof_for(answers, name) {
        if fits(before.layers, name, proof.code_hash) {
            let current = before.layers.local_info(name);
            let base = match current {
                Some(info) => info,
                None => InfoModel::fresh(),
            };
            let refreshed = HydrationModel {
                layers: before.layers.with_info(
                    name,
                    InfoModel {
                        balance: proof.balance,
                        nonce: proof.nonce,
                        code_hash: proof.code_hash,
                        ..base
                    },
                ),
                accounts: before.accounts + 1,
                ..before
            };
            let told = refreshed.failed_with(
                slot_failures(name, oddities(slots_wanted(entry.1), proof_keys(proof.slots@))),
            );
            lemma_noted_slots(told, name, entry.1, proof.slots@);
            let after = before.with_answer(entry, answers);
            assert(after == told.with_slots(name, entry.1, proof.slots@));
            assert(before.failures.is_prefix_of(told.failures));
            lemma_prefixes(before.failures, told.failures, after.failures);
        }
    }
}

/// What holding accounts against the answers leaves of an account.
proof fn lemma_all_answered(
    start: HydrationModel,
    entries: Seq<Entry>,
    answers: Seq<ProofAnswer>,
    address: Address,
)
    requires
        start.fresh.len() == 0,
    ensures
        ({
            let after = start.with_answers(entries, answers);
            let proof = proof_for(answers, address);
            let taken = proof is Some && fits(start.layers, address, proof->0.code_hash);
            &&& start.failures.is_prefix_of(after.failures)
            &&& !entry_names(entries).contains(address) || !taken ==> reads_alike(
                start.layers,
                after.layers,
                address,
            )
            &&& entry_names(entries).contains(address) && taken ==> {
                &&& holds_proof(after.layers.info(address), proof->0)
                &&& holds_proof(after.layers.local_info(address), proof->0)
                &&& after.layers.local_info(address)->0.code == match start.layers.local_info(
                    address,
                ) {
                    Some(info) => info.code,
                    None => Some(Seq::empty()),
                }
            }
            &&& forall|i: int|
                0 <= i < after.fresh.len() ==> {
                    let noted = #[trigger] after.fresh[i];
                    let known = proof_for(answers, noted.0);
                    &&& known is Some
                    &&& occurrences(proof_keys(known->0.slots@), noted.1) == 1
                    &&& noted.2 == sole_value(known->0.slots@, noted.1)
                }
        }),
    decreases entries.len(),
{
    if entries.len() == 0 {
    } else {
        let fewer = entries.drop_last();
        let before = start.with_answers(fewer, answers);
        let after = start.with_answers(entries, answers);
        lemma_all_answered(start, fewer, answers, address);
        lemma_answered(before, entries.last(), answers, address);
        lemma_prefixes(start.failures, before.failures, after.failures);
        assert(entry_names(entries).drop_last() =~= entry_names(fewer));
        lemma_names(entries, address);
        assert forall|i: int| 0 <= i < after.fresh.len() implies {
            let noted = #[trigger] after.fresh[i];
            let known = proof_for(answers, noted.0);
            &&& known is Some
            &&& occurrences(proof_keys(known->0.slots@), noted.1) == 1
            &&& noted.2 == sole_value(known->0.slots@, noted.1)
        } by {
            if i < before.fresh.len() {
                assert(after.fresh[i] == before.fresh[i]);
            }
        }
    }
}

/// An account is named by entries where all but the last name it, or the last does.
proof fn lemma_names(entries: Seq<Entry>, address: Address)
    requires
        entries.len() > 0,
    ensures
        entry_names(entries).contains(address) <==> entry_names(entries.drop_last()).contains(
            address,
        ) || entries.last().0 == address,
{
    let names = entry_names(entries);
    let fewer = entry_names(entries.drop_last());
    let last = entries.len() - 1;
    if names.contains(address) {
        let i = names.index_of(address);
        if i < last {
            assert(fewer[i] == address);
        }
    }
    if fewer.contains(address) {
        let i = fewer.index_of(address);
        assert(names[i] == address);
    }
    if entries.last().0 == address {
        assert(names[last] == address);
    }
}

/// What was noted after some entries is still noted after all.
proof fn lemma_notes_stay(
    start: HydrationModel,
    entries: Seq<Entry>,
    answers: Seq<ProofAnswer>,
    k: int,
)
    requires
        0 <= k <= entries.len(),
    ensures
        ({
            let some = start.with_answers(entries.take(k), answers);
            let all = start.with_answers(entries, answers);
            &&& some.fresh.is_prefix_of(all.fresh)
            &&& some.failures.is_prefix_of(all.failures)
            &&& some.code_changes.is_prefix_of(all.code_changes)
        }),
    decreases entries.len(),
{
    if k == entries.len() {
        assert(entries.take(k) =~= entries);
    } else {
        let fewer = entries.drop_last();
        lemma_notes_stay(start, fewer, answers, k);
        assert(fewer.take(k) =~= entries.take(k));
        let some = start.with_answers(entries.take(k), answers);
        let before = start.with_answers(fewer, answers);
        let all = start.with_answers(entries, answers);
        lemma_answered(before, entries.last(), answers, entries.last().0);
        lemma_prefixes(some.fresh, before.fresh, all.fresh);
        lemma_prefixes(some.failures, before.failures, all.failures);
        lemma_prefixes(some.code_changes, before.code_changes, all.code_changes);
    }
}

/// What is noted of the first entry of an account.
proof fn lemma_first_entry(
    start: HydrationModel,
    entries: Seq<Entry>,
    answers: Seq<ProofAnswer>,
    i: int,
)
    requires
        start.fresh.len() == 0,
        0 <= i < entries.len(),
        forall|j: int| 0 <= j < i ==> (#[trigger] entries[j]).0 != entries[i].0,
    ensures
        ({
            let before = start.with_answers(entries.take(i), answers);
            let noted = before.with_answer(entries[i], answers);
            let after = start.with_answers(entries, answers);
            &&& reads_alike(start.layers, before.layers, entries[i].0)
            &&& noted.fresh.is_prefix_of(after.fresh)
            &&& noted.failures.is_prefix_of(after.failures)
            &&& noted.code_changes.is_prefix_of(after.code_changes)
            &&& forall|x: (Address, U256, U256)|
                noted.fresh.contains(x) ==> #[trigger] after.fresh.contains(x)
            &&& forall|x: ReadSetHydrationFailure|
                noted.failures.contains(x) ==> #[trigger] after.failures.contains(x)
            &&& forall|x: (Address, B256, B256)|
                noted.code_changes.contains(x) ==> #[trigger] after.code_changes.contains(x)
        }),
{
    let address = entries[i].0;
    let earlier = entries.take(i);
    lemma_all_answered(start, earlier, answers, address);
    assert(!entry_names(earlier).contains(address)) by {
        if entry_names(earlier).contains(address) {
            let j = entry_names(earlier).index_of(address);
            assert(entries[j].0 == address);
        }
    }
    let upto = entries.take(i + 1);
    assert(upto.drop_last() =~= earlier);
    assert(upto.last() == entries[i]);
    lemma_notes_stay(start, entries, answers, i + 1);
    let noted = start.with_answers(upto, answers);
    let after = start.with_answers(entries, answers);
    lemma_prefixes(noted.fresh, noted.fresh, after.fresh);
    lemma_prefixes(noted.failures, noted.failures, after.failures);
    lemma_prefixes(noted.code_changes, noted.code_changes, after.code_changes);
}

/// After reads were brought up to date, every account asked for that has exactly one
/// answer, a proof with the code that is cached (or with no code, where nothing is
/// cached), reads the proof's balance and the proof's nonce, and keeps the code that
/// is cached. Each slot asked for that the proof holds once reads the proof's value.
pub proof fn law_hydrated_accounts_read_as_proved(
    before: EvmCache,
    after: EvmCache,
    required: AccessModel,
    entries: Seq<Entry>,
    answers: Seq<ProofAnswer>,
    report: ReadSetHydrationReport,
    i: int,
    at: int,
    proof: AccountProof,
)
    requires
        before.is_hydrated(after, required, entries, answers, report),
        0 <= i < entries.len(),
        only_at(answer_addresses(answers), entries[i].0, at),
        answers[at].1 == Ok::<AccountProof, crate::errors::StorageFetchError>(proof),
        fits(before.layers@, entries[i].0, proof.code_hash),
    ensures
        ({
            let address = entries[i].0;
            &&& after.layers@.info(address) is Some
            &&& after.layers@.info(address)->0.balance == proof.balance
            &&& after.layers@.info(address)->0.nonce == proof.nonce
            &&& before.layers@.local_info(address) matches Some(info)
                ==> after.layers@.local_info(address)->0.code == info.code
            &&& (forall|j: int| 0 <= j < i ==> (#[trigger] entries[j]).0 != address) ==> forall|
                k: int,
                w: int,
            |
                0 <= k < entries[i].1.len() && #[trigger] only_at(
                    proof_keys(proof.slots@),
                    slot_of(#[trigger] entries[i].1[k]),
                    w,
                ) ==> after.layers@.slot(address, slot_of(entries[i].1[k])) == Some(
                    proof.slots@[w].1,
                )
        }),
{
    let address = entries[i].0;
    let layers = before.layers@;
    let start = HydrationModel::start(layers).failed_with(
        answer_failures(oddities(entry_names(entries).to_set(), answer_addresses(answers))),
    );
    let model = hydration_of(layers, entries, answers);
    lemma_sole(answers, address, at);
    assert(proof_for(answers, address) == Some(proof));
    lemma_all_answered(start, entries, answers, address);
    assert(entry_names(entries)[i] == address);
    law_slot_batches_are_read_back(model.layers, model.fresh, address, U256::spec_zero());
    if forall|j: int| 0 <= j < i ==> (#[trigger] entries[j]).0 != address {
        lemma_first_entry(start, entries, answers, i);
        let reached = start.with_answers(entries.take(i), answers);
        let noted = reached.with_answer(entries[i], answers);
        assert(fits(reached.layers, address, proof.code_hash));
        assert forall|k: int, w: int|
            0 <= k < entries[i].1.len() && #[trigger] only_at(
                proof_keys(proof.slots@),
                slot_of(#[trigger] entries[i].1[k]),
                w,
            ) implies after.layers@.slot(address, slot_of(entries[i].1[k])) == Some(
            proof.slots@[w].1,
        ) by {
            let slot = slot_of(entries[i].1[k]);
            lemma_sole_slot(proof.slots@, slot, w);
            lemma_noted_for(reached, entries[i], answers, proof);
            assert(noted.fresh.contains((address, slot, proof.slots@[w].1)));
            assert(model.fresh.contains((address, slot, proof.slots@[w].1)));
            let t = last_value_of(model.fresh, address, slot);
            assert(model.fresh[t].2 == proof.slots@[w].1);
            law_slot_batches_are_read_back(model.layers, model.fresh, address, slot);
        }
    }
}

/// What is noted of an account that is held against a proof that fits it.
proof fn lemma_noted_for(
    before: HydrationModel,
    entry: Entry,
    answers: Seq<ProofAnswer>,
    proof: AccountProof,
)
    requires
        proof_for(answers, entry.0) == Some(proof),
        fits(before.layers, entry.0, proof.code_hash),
    ensures
        ({
            let after = before.with_answer(entry, answers);
            &&& after.accounts == before.accounts + 1
            &&& after.code_changes == before.code_changes
            &&& forall|k: int|
                0 <= k < entry.1.len() && occurrences(
                    proof_keys(proof.slots@),
                    slot_of(#[trigger] entry.1[k]),
                ) == 1 ==> after.fresh.contains(
                    (entry.0, slot_of(entry.1[k]), sole_value(proof.slots@, slot_of(entry.1[k]))),
                )
            &&& forall|k: int|
                0 <= k < entry.1.len() && occurrences(
                    proof_keys(proof.slots@),
                    slot_of(#[trigger] entry.1[k]),
                ) == 0 ==> after.failures.contains(
                    ReadSetHydrationFailure::StorageSlotMissing {
                        address: entry.0,
                        slot: slot_of(entry.1[k]),
                    },
                )
        }),
{
    let name = entry.0;
    let current = before.layers.local_info(name);
    let base = match current {
        Some(info) => info,
        None => InfoModel::fresh(),
    };
    let refreshed = HydrationModel {
        layers: before.layers.with_info(
            name,
            InfoModel {
                balance: proof.balance,
                nonce: proof.nonce,
                code_hash: proof.code_hash,
                ..base
            },
        ),
        accounts: before.accounts + 1,
        ..before
    };
    let told = refreshed.failed_with(
        slot_failures(name, oddities(slots_wanted(entry.1), proof_keys(proof.slots@))),
    );
    lemma_noted_slots(told, name, entry.1, proof.slots@);
    assert(before.with_answer(entry, answers) == told.with_slots(name, entry.1, proof.slots@));
}

/// The place of the last value for a slot that has one.
proof fn last_value_of(results: Seq<(Address, U256, U256)>, address: Address, slot: U256) -> (t:
    int)
    requires
        exists|i: int|
            0 <= i < results.len() && (#[trigger] results[i]).0 == address && results[i].1 == slot,
    ensures
        is_last_value(results, address, slot, t),
    decreases results.len(),
{
    let last = results.len() - 1;
    if results[last].0 == address && results[last].1 == slot {
        last
    } else {
        let fewer = results.drop_last();
        let i = choose|i: int|
            0 <= i < results.len() && (#[trigger] results[i]).0 == address && results[i].1 == slot;
        assert(fewer[i].0 == address);
        let t = last_value_of(fewer, address, slot);
        assert forall|later: int| t < later < results.len() implies !((#[trigger] results[later]).0
            == address && results[later].1 == slot) by {
            if later < last {
                assert(!(fewer[later].0 == address && fewer[later].1 == slot));
            }
        }
        assert(results[t] == fewer[t]);
        t
    }
}

/// After reads were brought up to date, nothing of an account is read otherwise that
/// was not asked for, that has no answer or several, whose answer is no proof, or
/// whose proof has other code than is cached (or any code, where nothing is cached).
pub proof fn law_unproved_accounts_read_as_before(
    before: EvmCache,
    after: EvmCache,
    required: AccessModel,
    entries: Seq<Entry>,
    answers: Seq<ProofAnswer>,
    report: ReadSetHydrationReport,
    address: Address,
)
    requires
        before.is_hydrated(after, required, entries, answers, report),
        !entry_names(entries).contains(address) || !answer_addresses(answers).contains(address)
            || (exists|i: int, j: int|
            0 <= i < j < answers.len() && (#[trigger] answers[i]).0 == address && (
            #[trigger] answers[j]).0 == address) || (exists|at: int| #[trigger]
            only_at(answer_addresses(answers), address, at) && match answers[at].1 {
                Ok(proof) => !fits(before.layers@, address, proof.code_hash),
                Err(_) => true,
            }),
    ensures
        after.layers@.info(address) == before.layers@.info(address),
        !entry_names(entries).contains(address) || !answer_addresses(answers).contains(address)
            || proof_for(answers, address) is None ==> forall|s: U256| #[trigger]
            after.layers@.slot(address, s) == before.layers@.slot(address, s),
{
    let layers = before.layers@;
    let keys = answer_addresses(answers);
    let start = HydrationModel::start(layers).failed_with(
        answer_failures(oddities(entry_names(entries).to_set(), keys)),
    );
    let model = hydration_of(layers, entries, answers);
    law_occurrences_count_places(keys, address);
    if exists|i: int, j: int|
        0 <= i < j < answers.len() && (#[trigger] answers[i]).0 == address && (
        #[trigger] answers[j]).0 == address {
        let (i, j) = choose|i: int, j: int|
            0 <= i < j < answers.len() && (#[trigger] answers[i]).0 == address && (
            #[trigger] answers[j]).0 == address;
        assert(keys[i] == address && keys[j] == address);
    }
    if exists|at: int| #[trigger]
        only_at(keys, address, at) && match answers[at].1 {
            Ok(proof) => !fits(layers, address, proof.code_hash),
            Err(_) => true,
        } {
        let at = choose|at: int| #[trigger]
            only_at(keys, address, at) && match answers[at].1 {
                Ok(proof) => !fits(layers, address, proof.code_hash),
                Err(_) => true,
            };
        lemma_sole(answers, address, at);
    }
    lemma_all_answered(start, entries, answers, address);
    law_slot_batches_are_read_back(model.layers, model.fresh, address, U256::spec_zero());
    if !entry_names(entries).contains(address) {
        lemma_fresh_is_asked(start, entries, answers);
    }
    if !entry_names(entries).contains(address) || proof_for(answers, address) is None {
        assert forall|s: U256| #[trigger] after.layers@.slot(address, s) == layers.slot(
            address,
            s,
        ) by {
            assert forall|i: int| 0 <= i < model.fresh.len() implies !((
            #[trigger] model.fresh[i]).0 == address && model.fresh[i].1 == s) by {}
            law_slot_batches_are_read_back(model.layers, model.fresh, address, s);
            assert(model.layers.slot(address, s) == layers.slot(address, s));
        }
    }
}

/// New values are of accounts that were asked for.
proof fn lemma_fresh_is_asked(
    start: HydrationModel,
    entries: Seq<Entry>,
    answers: Seq<ProofAnswer>,
)
    requires
        start.fresh.len() == 0,
    ensures
        ({
            let after = start.with_answers(entries, answers);
            forall|i: int|
                0 <= i < after.fresh.len() ==> entry_names(entries).contains(
                    (#[trigger] after.fresh[i]).0,
                )
        }),
    decreases entries.len(),
{
    if entries.len() > 0 {
        let fewer = entries.drop_last();
        let entry = entries.last();
        lemma_fresh_is_asked(start, fewer, answers);
        let before = start.with_answers(fewer, answers);
        let after = start.with_answers(entries, answers);
        lemma_answered(before, entry, answers, entry.0);
        assert forall|i: int| 0 <= i < after.fresh.len() implies entry_names(entries).contains(
            (#[trigger] after.fresh[i]).0,
        ) by {
            if i < before.fresh.len() {
                assert(after.fresh[i] == before.fresh[i]);
            } else {
                lemma_fresh_of(before, entry, answers, i);
            }
            lemma_names(entries, after.fresh[i].0);
        }
    }
}

/// A value that one entry brings is of its account.
proof fn lemma_fresh_of(
    before: HydrationModel,
    entry: Entry,
    answers: Seq<ProofAnswer>,
    i: int,
)
    requires
        before.fresh.len() <= i < before.with_answer(entry, answers).fresh.len(),
    ensures
        before.with_answer(entry, answers).fresh[i].0 == entry.0,
{
    let name = entry.0;
    if let Some(proof) = proof_for(answers, name) {
        if fits(before.layers, name, proof.code_hash) {
            let current = before.layers.local_info(name);
            let base = match current {
                Some(info) => info,
                None => InfoModel::fresh(),
            };
            let refreshed = HydrationModel {
                layers: before.layers.with_info(
                    name,
                    InfoModel {
                        balance: proof.balance,
                        nonce: proof.nonce,
                        code_hash: proof.code_hash,
                        ..base
                    },
                ),
                accounts: before.accounts + 1,
                ..before
            };
            let told = refreshed.failed_with(
                slot_failures(name, oddities(slots_wanted(entry.1), proof_keys(proof.slots@))),
            );
            lemma_noted_slots(told, name, entry.1, proof.slots@);
            assert(before.with_answer(entry, answers) == told.with_slots(
                name,
                entry.1,
                proof.slots@,
            ));
        }
    }
}

/// What goes wrong with an account that is asked for is told: that it has no answer,
/// that its answer is no proof (and why), that its proof has other code than is
/// cached (both hashes), that its code is not cached, and each slot that its proof
/// lacks.
pub proof fn law_hydration_failures_are_told(
    before: EvmCache,
    after: EvmCache,
    required: AccessModel,
    entries: Seq<Entry>,
    answers: Seq<ProofAnswer>,
    report: ReadSetHydrationReport,
    i: int,
)
    requires
        before.is_hydrated(after, required, entries, answers, report),
        0 <= i < entries.len(),
        forall|j: int| 0 <= j < i ==> (#[trigger] entries[j]).0 != entries[i].0,
    ensures
        ({
            let address = entries[i].0;
            let cached = before.layers@.local_info(address);
            &&& !answer_addresses(answers).contains(address) ==> report.failures@.contains(
                ReadSetHydrationFailure::ProofResultMissing { address },
            )
            &&& forall|at: int| #[trigger]
                only_at(answer_addresses(answers), address, at) ==> match answers[at].1 {
                    Err(source) => report.failures@.contains(
                        ReadSetHydrationFailure::ProofFetch { address, source },
                    ),
                    Ok(proof) => {
                        &&& cached is Some && cached->0.code_hash != proof.code_hash
                            ==> report.code_changes@.contains(
                            (address, cached->0.code_hash, proof.code_hash),
                        )
                        &&& cached is None && proof.code_hash@ != 0 && proof.code_hash
                            != spec_keccak_empty() ==> report.failures@.contains(
                            ReadSetHydrationFailure::RuntimeCodeUnavailable {
                                address,
                                code_hash: proof.code_hash,
                            },
                        )
                        &&& fits(before.layers@, address, proof.code_hash) ==> forall|k: int|
                            0 <= k < entries[i].1.len() && !proof_keys(proof.slots@).contains(
                                slot_of(#[trigger] entries[i].1[k]),
                            ) ==> report.failures@.contains(
                                ReadSetHydrationFailure::StorageSlotMissing {
                                    address,
                                    slot: slot_of(entries[i].1[k]),
                                },
                            )
                    },
                }
        }),
{
    let address = entries[i].0;
    let layers = before.layers@;
    let keys = answer_addresses(answers);
    let start = HydrationModel::start(layers).failed_with(
        answer_failures(oddities(entry_names(entries).to_set(), keys)),
    );
    lemma_first_entry(start, entries, answers, i);
    let reached = start.with_answers(entries.take(i), answers);
    let noted = reached.with_answer(entries[i], answers);
    let n = reached.failures.len() as int;
    law_occurrences_count_places(keys, address);
    if !keys.contains(address) {
        assert(noted.failures[n] == ReadSetHydrationFailure::ProofResultMissing { address });
        assert(noted.failures.contains(ReadSetHydrationFailure::ProofResultMissing { address }));
    }
    assert forall|at: int| #[trigger] only_at(keys, address, at) implies match answers[at].1 {
        Err(source) => report.failures@.contains(
            ReadSetHydrationFailure::ProofFetch { address, source },
        ),
        Ok(proof) => {
            let cached = layers.local_info(address);
            &&& cached is Some && cached->0.code_hash != proof.code_hash
                ==> report.code_changes@.contains(
                (address, cached->0.code_hash, proof.code_hash),
            )
            &&& cached is None && proof.code_hash@ != 0 && proof.code_hash
                != spec_keccak_empty() ==> report.failures@.contains(
                ReadSetHydrationFailure::RuntimeCodeUnavailable {
                    address,
                    code_hash: proof.code_hash,
                },
            )
            &&& fits(layers, address, proof.code_hash) ==> forall|k: int|
                0 <= k < entries[i].1.len() && !proof_keys(proof.slots@).contains(
                    slot_of(#[trigger] entries[i].1[k]),
                ) ==> report.failures@.contains(
                    ReadSetHydrationFailure::StorageSlotMissing {
                        address,
                        slot: slot_of(entries[i].1[k]),
                    },
                )
        },
    } by {
        lemma_sole(answers, address, at);
        match answers[at].1 {
            Err(source) => {
                let told = ReadSetHydrationFailure::ProofFetch { address, source };
                assert(noted.failures[n] == told);
                assert(noted.failures.contains(told));
            },
            Ok(proof) => {
                let cached = layers.local_info(address);
                if cached is Some && cached->0.code_hash != proof.code_hash {
                    let told = (address, cached->0.code_hash, proof.code_hash);
                    assert(noted.code_changes[reached.code_changes.len() as int] == told);
                    assert(noted.code_changes.contains(told));
                }
                if cached is None && proof.code_hash@ != 0 && proof.code_hash
                    != spec_keccak_empty() {
                    let told = ReadSetHydrationFailure::RuntimeCodeUnavailable {
                        address,
                        code_hash: proof.code_hash,
                    };
                    assert(noted.failures[n] == told);
                    assert(noted.failures.contains(told));
                }
                if fits(layers, address, proof.code_hash) {
                    lemma_noted_for(reached, entries[i], answers, proof);
                    assert forall|k: int|
                        0 <= k < entries[i].1.len() && !proof_keys(proof.slots@).contains(
                            slot_of(#[trigger] entries[i].1[k]),
                        ) implies report.failures@.contains(
                        ReadSetHydrationFailure::StorageSlotMissing {
                            address,
                            slot: slot_of(entries[i].1[k]),
                        },
                    ) by {
                        law_occurrences_count_places(
                            proof_keys(proof.slots@),
                            slot_of(entries[i].1[k]),
                        );
                    }
                }
            },
        }
    }
}

/// What is odd about keys that came back: every key that was not asked for is told as
/// unexpected, every key that came back several times as repeated, and nothing else is
/// told.
pub proof fn law_oddities_are_told<K>(expected: Set<K>, keys: Seq<K>, key: K)
    ensures
        oddities(expected, keys).contains(Oddity::Unexpected(key)) <==> keys.contains(key)
            && !expected.contains(key),
        oddities(expected, keys).contains(Oddity::Repeated(key)) <==> expected.contains(key)
            && occurrences(keys, key) >= 2,
    decreases keys.len(),
{
    if keys.len() > 0 {
        let fewer = keys.drop_last();
        let last = keys.len() - 1;
        let earlier = oddities(expected, fewer);
        let all = oddities(expected, keys);
        law_oddities_are_told(expected, fewer, key);
        law_occurrences_count_places(fewer, key);
        law_occurrences_count_places(fewer, keys.last());
        assert(keys[last] == keys.last());
        if keys.contains(key) && keys.last() != key {
            let i = keys.index_of(key);
            assert(fewer[i] == key);
        }
        if fewer.contains(key) {
            let i = fewer.index_of(key);
            assert(keys[i] == key);
        }
        assert(earlier.is_prefix_of(all));
        lemma_prefixes(earlier, earlier, all);
        if all.len() > earlier.len() {
            let told = all[earlier.len() as int];
            assert(all == earlier.push(told));
            assert forall|x: Oddity<K>| #[trigger] all.contains(x) implies earlier.contains(x) || x
                == told by {
                let i = all.index_of(x);
                if i < earlier.len() {
                    assert(earlier[i] == x);
                }
            }
        }
    }
}

/// Answers that were not asked for, and several answers for one account, are told.
pub proof fn law_odd_answers_are_told(
    before: EvmCache,
    after: EvmCache,
    required: AccessModel,
    entries: Seq<Entry>,
    answers: Seq<ProofAnswer>,
    report: ReadSetHydrationReport,
    i: int,
    j: int,
)
    requires
        before.is_hydrated(after, required, entries, answers, report),
        0 <= i < answers.len(),
        0 <= j < answers.len(),
    ensures
        !entry_names(entries).contains(answers[i].0) ==> report.failures@.contains(
            ReadSetHydrationFailure::ProofResultUnexpected { address: answers[i].0 },
        ),
        entry_names(entries).contains(answers[i].0) && answers[i].0 == answers[j].0 && i < j
            ==> report.failures@.contains(
            ReadSetHydrationFailure::ProofResultDuplicate { address: answers[i].0 },
        ),
{
    let address = answers[i].0;
    let keys = answer_addresses(answers);
    let expected = entry_names(entries).to_set();
    let odd = oddities(expected, keys);
    let told = answer_failures(odd);
    let start = HydrationModel::start(before.layers@).failed_with(told);
    lemma_all_answered(start, entries, answers, address);
    assert(start.failures =~= told);
    lemma_prefixes(told, told, report.failures@);
    assert(keys[i] == address);
    assert(keys[j] == answers[j].0);
    law_oddities_are_told(expected, keys, address);
    law_occurrences_count_places(keys, address);
    if !expected.contains(address) {
        let k = odd.index_of(Oddity::Unexpected(address));
        assert(told[k] == ReadSetHydrationFailure::ProofResultUnexpected { address });
        assert(told.contains(told[k]));
    } else if answers[i].0 == answers[j].0 && i < j {
        let k = odd.index_of(Oddity::Repeated(address));
        assert(told[k] == ReadSetHydrationFailure::ProofResultDuplicate { address });
        assert(told.contains(told[k]));
    }
}

/// What is told as missing is what was asked for and still cannot be read: accounts
/// that neither layer holds, slots that read nothing, codes that no account has and
/// block hashes that are not known. Nothing else is, and none of these is left out.
pub proof fn law_missing_reads_cannot_be_read(
    layers: LayersModel,
    block_hashes: Map<u64, B256>,
    required: AccessModel,
    address: Address,
    key: SlotKey,
    hash: B256,
    number: u64,
)
    ensures
        ({
            let missing = missing_reads(layers, block_hashes, required);
            &&& missing.accounts.contains(address) <==> required.accounts.contains(address)
                && layers.local_info(address) is None
            &&& missing.slots.contains(key) <==> required.slots.contains(key) && layers.slot(
                key.address,
                key.slot,
            ) is None
            &&& missing.code_hashes.contains(hash) <==> required.code_hashes.contains(hash)
                && layers.code(hash) is None
            &&& missing.block_numbers.contains(number) <==> required.block_numbers.contains(number)
                && !block_hashes.contains_key(number)
        }),
{
}

/// How many entries have a proof that fits what is cached, where each account is named
/// once.
pub open spec fn taken_proofs(
    layers: LayersModel,
    entries: Seq<Entry>,
    answers: Seq<ProofAnswer>,
) -> nat
    decreases entries.len(),
{
    if entries.len() == 0 {
        0
    } else {
        let address = entries.last().0;
        let proof = proof_for(answers, address);
        taken_proofs(layers, entries.drop_last(), answers) + if proof is Some && fits(
            layers,
            address,
            proof->0.code_hash,
        ) {
            1nat
        } else {
            0nat
        }
    }
}

/// The accounts that are told as brought up to date are as many as have a proof that fits
/// what is cached, where each account is asked for once; the block told is the cache's.
pub proof fn law_refreshed_accounts_are_counted(
    before: EvmCache,
    after: EvmCache,
    required: AccessModel,
    entries: Seq<Entry>,
    answers: Seq<ProofAnswer>,
    report: ReadSetHydrationReport,
)
    requires
        before.is_hydrated(after, required, entries, answers, report),
        entry_names(entries).no_duplicates(),
    ensures
        report.accounts_refreshed == taken_proofs(before.layers@, entries, answers),
        report.block == before.context.block,
{
    let start = HydrationModel::start(before.layers@).failed_with(
        answer_failures(oddities(entry_names(entries).to_set(), answer_addresses(answers))),
    );
    lemma_taken(start, entries, answers);
}

/// How many accounts are brought up to date.
proof fn lemma_taken(start: HydrationModel, entries: Seq<Entry>, answers: Seq<ProofAnswer>)
    requires
        start.fresh.len() == 0,
        entry_names(entries).no_duplicates(),
    ensures
        start.with_answers(entries, answers).accounts == start.accounts + taken_proofs(
            start.layers,
            entries,
            answers,
        ),
    decreases entries.len(),
{
    if entries.len() > 0 {
        let fewer = entries.drop_last();
        let entry = entries.last();
        let last = entries.len() - 1;
        let names = entry_names(entries);
        assert(entry_names(fewer) =~= names.drop_last());
        assert(names[last] == entry.0);
        lemma_taken(start, fewer, answers);
        lemma_all_answered(start, fewer, answers, entry.0);
        assert(!entry_names(fewer).contains(entry.0)) by {
            if entry_names(fewer).contains(entry.0) {
                let i = entry_names(fewer).index_of(entry.0);
                assert(names[i] == names[last]);
            }
        }
        let reached = start.with_answers(fewer, answers);
        if let Some(proof) = proof_for(answers, entry.0) {
            if fits(reached.layers, entry.0, proof.code_hash) {
                lemma_noted_for(reached, entry, answers, proof);
            }
        }
    }
}

} // verus!
