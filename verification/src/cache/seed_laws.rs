//! What becomes of code that a cache was given.

use crate::bulk_storage::config::multicall3_address;
use crate::bulk_storage::programs::AccountFieldsSample;
use crate::cache::account::{AccountInfo, AccountState};
use crate::cache::code_seeds::CodeSeedState;
use crate::cache::config::MissingTargetBehavior;
use crate::cache::evm_cache::{next_generation, EvmCache};
use crate::cache::layers::{lookup, LayersModel};
use crate::cache::prepared::{
    account_refusal, first_refusal, marks_with_prepared, occurs, patch_refusal, with_prepared,
    PreparedModel,
};
use crate::cache::seeding::{
    checkable_set, hash_of, host_report, last_samples, pending_set, CodeMismatch, ReportModel,
    SettleModel, UnverifiableReason,
};
use crate::errors::CacheError;
use crate::foreign::spec_keccak_empty;
use crate::primitives::{Address, B256, U256};
use vstd::prelude::*;

verus! {

/// What came of a claim is told in one place, and only there: as verified where the
/// hash is the one claimed, as not deployed where there is no account, as codeless
/// where there is one without code, as mismatched with both hashes otherwise, and as
/// unverifiable where nothing was found out. A claim that was verified keeps the
/// account, with the balance found; one that failed takes the account out.
pub proof fn law_claims_are_told(
    state: SettleModel,
    address: Address,
    claimed: B256,
    sample: Option<AccountFieldsSample>,
    at: u64,
)
    requires
        lookup(state.marks, address) == Some(CodeSeedState::Pending { code_hash: claimed }),
    ensures
        ({
            let after = state.settled(address, sample, at);
            let told = state.report;
            match sample {
                None => {
                    &&& after.report == (ReportModel {
                        unverifiable: told.unverifiable.push((address, UnverifiableReason::NoSample)),
                        ..told
                    })
                    &&& after.layers == state.layers
                    &&& after.marks == state.marks
                },
                Some(found) => if found.code_hash == claimed {
                    &&& after.report == (ReportModel { verified: told.verified.push(address), ..told })
                    &&& after.marks == state.marks.insert(
                        address,
                        CodeSeedState::Verified { code_hash: claimed, verified_at_block: at },
                    )
                    &&& state.layers.info(address) is Some ==> after.layers.info(address) is Some
                        && after.layers.info(address)->0.balance == found.balance
                        && after.layers.info(address)->0.code == state.layers.info(address)->0.code
                        && after.layers.info(address)->0.nonce == state.layers.info(address)->0.nonce
                } else {
                    &&& after.layers.info(address) is None
                    &&& after.layers.local_info(address) is None
                    &&& !after.marks.contains_key(address)
                    &&& after.generation == next_generation(state.generation)
                    &&& after.report.verified == told.verified
                    &&& after.report.unverifiable == told.unverifiable
                    &&& after.report.not_deployed == if found.code_hash@ == 0 {
                        told.not_deployed.push(address)
                    } else {
                        told.not_deployed
                    }
                    &&& after.report.codeless == if found.code_hash@ != 0 && found.code_hash
                        == spec_keccak_empty() {
                        told.codeless.push(address)
                    } else {
                        told.codeless
                    }
                    &&& after.report.mismatched == if found.code_hash@ != 0 && found.code_hash
                        != spec_keccak_empty() {
                        told.mismatched.push(
                            CodeMismatch { address, expected: claimed, actual: found.code_hash },
                        )
                    } else {
                        told.mismatched
                    }
                },
            }
        }),
{
}

/// Settling one claim touches no other account and no other mark.
pub proof fn law_claims_are_settled_alone(
    state: SettleModel,
    address: Address,
    sample: Option<AccountFieldsSample>,
    at: u64,
    other: Address,
    slot: U256,
)
    requires
        other != address,
    ensures
        ({
            let after = state.settled(address, sample, at);
            &&& lookup(after.marks, other) == lookup(state.marks, other)
            &&& after.layers.info(other) == state.layers.info(other)
            &&& after.layers.slot(other, slot) == state.layers.slot(other, slot)
        }),
{
}

/// Settling several claims touches only the accounts and marks named.
pub proof fn law_unnamed_claims_stay(
    state: SettleModel,
    addresses: Seq<Address>,
    samples: Map<Address, AccountFieldsSample>,
    at: u64,
    other: Address,
    slot: U256,
)
    requires
        !addresses.contains(other),
    ensures
        ({
            let after = state.settled_all(addresses, samples, at);
            &&& lookup(after.marks, other) == lookup(state.marks, other)
            &&& after.layers.info(other) == state.layers.info(other)
            &&& after.layers.local_info(other) == state.layers.local_info(other)
            &&& after.layers.slot(other, slot) == state.layers.slot(other, slot)
        }),
    decreases addresses.len(),
{
    if addresses.len() > 0 {
        let fewer = addresses.drop_last();
        let last = addresses.len() - 1;
        assert(addresses[last] == addresses.last());
        assert(!fewer.contains(other)) by {
            if fewer.contains(other) {
                let i = fewer.index_of(other);
                assert(addresses[i] == other);
            }
        }
        law_unnamed_claims_stay(state, fewer, samples, at, other, slot);
        assert(addresses.contains(addresses[last]));
    }
}

/// After several claims, each named once, were held against samples, none is pending
/// that a sample was there for: those with the claimed hash are verified, the others
/// are gone with their accounts. A claim that no sample was there for is still pending.
pub proof fn law_sampled_claims_are_decided(
    state: SettleModel,
    addresses: Seq<Address>,
    samples: Map<Address, AccountFieldsSample>,
    at: u64,
    i: int,
    claimed: B256,
)
    requires
        addresses.no_duplicates(),
        0 <= i < addresses.len(),
        lookup(state.marks, addresses[i]) == Some(CodeSeedState::Pending { code_hash: claimed }),
    ensures
        ({
            let after = state.settled_all(addresses, samples, at);
            match lookup(samples, addresses[i]) {
                None => lookup(after.marks, addresses[i]) == lookup(state.marks, addresses[i])
                    && after.layers.info(addresses[i]) == state.layers.info(addresses[i])
                    && after.report.unverifiable.contains(
                    (addresses[i], UnverifiableReason::NoSample),
                ),
                Some(found) => if found.code_hash == claimed {
                    lookup(after.marks, addresses[i]) == Some(
                        CodeSeedState::Verified { code_hash: claimed, verified_at_block: at },
                    ) && after.report.verified.contains(addresses[i])
                } else {
                    lookup(after.marks, addresses[i]) is None && after.layers.info(
                        addresses[i],
                    ) is None
                },
            }
        }),
    decreases addresses.len(),
{
    let fewer = addresses.drop_last();
    let last = addresses.len() - 1;
    let address = addresses[i];
    let before = state.settled_all(fewer, samples, at);
    let after = state.settled_all(addresses, samples, at);
    assert(addresses[last] == addresses.last());
    if i < last {
        assert(fewer[i] == address);
        assert(fewer.no_duplicates());
        law_sampled_claims_are_decided(state, fewer, samples, at, i, claimed);
        assert(addresses[last] != address);
        law_claims_are_settled_alone(
            before,
            addresses[last],
            lookup(samples, addresses[last]),
            at,
            address,
            U256::spec_zero(),
        );
        lemma_report_grows(before, addresses[last], lookup(samples, addresses[last]), at);
    } else {
        assert(!fewer.contains(address)) by {
            if fewer.contains(address) {
                let j = fewer.index_of(address);
                assert(addresses[j] == address);
            }
        }
        law_unnamed_claims_stay(state, fewer, samples, at, address, U256::spec_zero());
        law_claims_are_told(before, address, claimed, lookup(samples, address), at);
        match lookup(samples, address) {
            None => {
                let told = (address, UnverifiableReason::NoSample);
                assert(after.report.unverifiable[before.report.unverifiable.len() as int] == told);
            },
            Some(found) => {
                if found.code_hash == claimed {
                    assert(after.report.verified[before.report.verified.len() as int] == address);
                }
            },
        }
    }
}

/// What was told of claims is still told after another one.
proof fn lemma_report_grows(
    state: SettleModel,
    address: Address,
    sample: Option<AccountFieldsSample>,
    at: u64,
)
    ensures
        forall|a: Address|
            state.report.verified.contains(a) ==> #[trigger] state.settled(
                address,
                sample,
                at,
            ).report.verified.contains(a),
        forall|x: (Address, UnverifiableReason)|
            state.report.unverifiable.contains(x) ==> #[trigger] state.settled(
                address,
                sample,
                at,
            ).report.unverifiable.contains(x),
{
    let after = state.settled(address, sample, at);
    assert forall|a: Address| state.report.verified.contains(a) implies #[trigger]
        after.report.verified.contains(a) by {
        let i = state.report.verified.index_of(a);
        assert(after.report.verified[i] == a);
    }
    assert forall|x: (Address, UnverifiableReason)|
        state.report.unverifiable.contains(x) implies #[trigger] after.report.unverifiable.contains(
        x,
    ) by {
        let i = state.report.unverifiable.index_of(x);
        assert(after.report.unverifiable[i] == x);
    }
}

/// Of several samples of an account the last one counts.
pub proof fn law_the_last_sample_counts(
    samples: Seq<(Address, AccountFieldsSample)>,
    address: Address,
)
    ensures
        forall|at: int|
            0 <= at < samples.len() && (#[trigger] samples[at]).0 == address && (forall|later: int|
                at < later < samples.len() ==> (#[trigger] samples[later]).0 != address)
                ==> lookup(last_samples(samples), address) == Some(samples[at].1),
        (forall|i: int| 0 <= i < samples.len() ==> (#[trigger] samples[i]).0 != address) ==> lookup(
            last_samples(samples),
            address,
        ) is None,
    decreases samples.len(),
{
    if samples.len() > 0 {
        let fewer = samples.drop_last();
        let last = samples.len() - 1;
        assert(samples[last] == samples.last());
        law_the_last_sample_counts(fewer, address);
        assert forall|i: int| 0 <= i < fewer.len() implies #[trigger] fewer[i] == samples[i] by {}
        assert forall|at: int|
            0 <= at < samples.len() && (#[trigger] samples[at]).0 == address && (forall|later: int|
                at < later < samples.len() ==> (#[trigger] samples[later]).0 != address)
        implies lookup(last_samples(samples), address) == Some(samples[at].1) by {
            if at < last {
                assert(samples[last].0 != address);
                assert(fewer[at].0 == address);
                assert forall|later: int| at < later < fewer.len() implies (
                #[trigger] fewer[later]).0 != address by {
                    assert(samples[later].0 != address);
                }
            }
        }
        if forall|i: int| 0 <= i < samples.len() ==> (#[trigger] samples[i]).0 != address {
            assert forall|i: int| 0 <= i < fewer.len() implies (#[trigger] fewer[i]).0
                != address by {
                assert(samples[i].0 != address);
            }
            assert(samples[last].0 != address);
        }
    }
}

/// What can be checked is every claim but that of the contract that checks are run
/// through; that one is told as unverifiable.
pub proof fn law_every_claim_is_checked_or_told(
    marks: Map<Address, CodeSeedState>,
    address: Address,
)
    ensures
        ({
            let pending = marks.contains_key(address) && marks[address] is Pending;
            let told = exists|i: int|
                0 <= i < host_report(marks).unverifiable.len() && (#[trigger] host_report(
                    marks,
                ).unverifiable[i]).0 == address;
            &&& pending <==> checkable_set(marks).contains(address) || told
            &&& !(checkable_set(marks).contains(address) && told)
            &&& pending_set(marks).contains(address) <==> pending
        }),
{
    let told = host_report(marks).unverifiable;
    if pending_set(marks).contains(multicall3_address()) {
        assert(told.len() == 1);
        assert(told[0].0 == multicall3_address());
    }
}

/// Code that was given for an account is read from it, under its own hash, unless it
/// is refused; refused are empty code, and code other than that which is cached and
/// was not given. What was refused changes nothing. An account that was not cached
/// gets the nonce and the balance given; one that was keeps its own.
pub proof fn law_given_code_is_read_back(
    before: EvmCache,
    after: EvmCache,
    address: Address,
    code: Seq<u8>,
    nonce: u64,
    balance: U256,
    r: Result<B256, CacheError>,
    other: Address,
)
    requires
        before.is_seeded(after, address, code, nonce, balance, r),
    ensures
        ({
            let cached = before.layers@.local_info(address);
            let given = before.code_seeds@.contains_key(address);
            let refused = code.len() == 0 || (!given && cached is Some && cached->0.code_hash
                != hash_of(code));
            &&& r is Err <==> refused
            &&& refused ==> after == before
            &&& r matches Ok(hash) ==> hash == hash_of(code)
            &&& !refused ==> {
                let now = after.layers@.local_info(address);
                &&& now is Some
                &&& after.code_seeds@.contains_key(address)
                &&& after.code_seeds@[address].spec_code_hash() == hash_of(code)
                &&& given || cached is None ==> after.code_seeds@[address] is Pending
                &&& !given && cached is Some ==> after.code_seeds@[address] is Verified
                &&& given || cached is None || !cached->0.has_code() ==> now->0.code == Some(code)
                &&& cached is None ==> now->0.balance == balance && now->0.nonce == nonce
                &&& cached is Some ==> now->0.balance == cached->0.balance && now->0.nonce
                    == cached->0.nonce
                &&& other != address ==> after.layers@.local_info(other)
                    == before.layers@.local_info(other) && lookup(after.code_seeds@, other)
                    == lookup(before.code_seeds@, other)
            }
        }),
{
}

/// Once an account's code was overridden with another's, it holds that code under its
/// own hash with the balance and nonce it had, and is marked as etched. What was
/// refused changes nothing. The source must hold code in the overlay.
pub proof fn law_overridden_code_is_read_back(
    before: EvmCache,
    after: EvmCache,
    source: Address,
    target: Address,
    missing_target: MissingTargetBehavior,
    fetched: Result<Option<AccountInfo>, String>,
    r: Result<(), CacheError>,
    other: Address,
)
    requires
        before.is_overridden(after, source, target, missing_target, fetched, r),
    ensures
        r is Err ==> after == before,
        r is Ok ==> {
            let from = before.layers@.overlay;
            let now = after.layers@.info(target);
            &&& from.contains_key(source)
            &&& from[source].info.has_code()
            &&& now is Some
            &&& now->0.code == from[source].info.code
            &&& after.code_seeds@[target] == (CodeSeedState::Etched {
                code_hash: hash_of(from[source].info.code->0),
            })
            &&& from.contains_key(target) && from[target].account_state
                != AccountState::NotExisting ==> now->0.balance == from[target].info.balance
                && now->0.nonce == from[target].info.nonce
            &&& !from.contains_key(target) && missing_target == MissingTargetBehavior::Create
                ==> now->0.balance@ == 0 && now->0.nonce == 0
            &&& other != target ==> after.layers@.info(other) == before.layers@.info(other)
                && lookup(after.code_seeds@, other) == lookup(before.code_seeds@, other)
        },
        !before.layers@.overlay.contains_key(source)
            || !before.layers@.overlay[source].info.has_code() ==> r is Err,
        before.layers@.overlay.contains_key(source)
            && before.layers@.overlay[source].info.has_code() ==> {
            let held = lookup(before.layers@.overlay, target);
            let exists_here = held is Some && held->0.account_state != AccountState::NotExisting;
            &&& missing_target == MissingTargetBehavior::Create ==> r is Ok
            &&& missing_target == MissingTargetBehavior::Error && exists_here ==> (r is Ok
                <==> held->0.info.has_code())
            &&& missing_target == MissingTargetBehavior::Error && !exists_here ==> (r is Ok <==> (
            fetched is Ok && fetched->Ok_0 is Some && fetched->Ok_0->0@.has_code()))
        },
{
}

/// Whether nothing stands against one of several prepared accounts.
pub open spec fn is_sound(
    marks: Map<Address, CodeSeedState>,
    values: Seq<PreparedModel>,
    i: int,
) -> bool {
    let value = values[i];
    &&& forall|j: int| 0 <= j < i ==> (#[trigger] values[j]).address != value.address
    &&& value.code.len() > 0
    &&& value.proof_slots == 0
    &&& hash_of(value.code) == value.code_hash
    &&& marks.contains_key(value.address) ==> !(marks[value.address] is Etched)
        && marks[value.address].spec_code_hash() == hash_of(value.code)
}

/// Prepared accounts are accepted where nothing stands against any of them: they are
/// distinct, each has code with the hash it tells, no slots, and no mark of another
/// code or of an etched one.
pub proof fn law_sound_accounts_are_accepted(
    marks: Map<Address, CodeSeedState>,
    values: Seq<PreparedModel>,
)
    ensures
        first_refusal(marks, values) is None <==> forall|i: int|
            0 <= i < values.len() ==> #[trigger] is_sound(marks, values, i),
    decreases values.len(),
{
    if values.len() > 0 {
        let fewer = values.drop_last();
        let last = values.len() - 1;
        assert(values[last] == values.last());
        law_sound_accounts_are_accepted(marks, fewer);
        assert forall|i: int| 0 <= i < fewer.len() implies (#[trigger] is_sound(marks, fewer, i)
            <==> is_sound(marks, values, i)) by {
            assert(fewer[i] == values[i]);
            if is_sound(marks, fewer, i) {
                assert forall|j: int| 0 <= j < i implies (#[trigger] values[j]).address
                    != values[i].address by {
                    assert(fewer[j].address != fewer[i].address);
                }
            }
            if is_sound(marks, values, i) {
                assert forall|j: int| 0 <= j < i implies (#[trigger] fewer[j]).address
                    != fewer[i].address by {
                    assert(values[j].address != values[i].address);
                }
            }
        }
        assert(occurs(fewer, values.last().address) <==> !(forall|j: int|
            0 <= j < last ==> (#[trigger] values[j]).address != values[last].address)) by {
            if occurs(fewer, values.last().address) {
                let j = choose|j: int|
                    0 <= j < fewer.len() && (#[trigger] fewer[j]).address == values.last().address;
                assert(values[j].address == values[last].address);
            }
            if !(forall|j: int|
                0 <= j < last ==> (#[trigger] values[j]).address != values[last].address) {
                let j = choose|j: int|
                    0 <= j < last && (#[trigger] values[j]).address == values[last].address;
                assert(fewer[j].address == values.last().address);
            }
        }
        assert(account_refusal(marks, fewer, values.last()) is None <==> is_sound(
            marks,
            values,
            last,
        ));
        if first_refusal(marks, values) is None {
            assert forall|i: int| 0 <= i < values.len() implies #[trigger] is_sound(
                marks,
                values,
                i,
            ) by {
                if i < last {
                    assert(is_sound(marks, fewer, i));
                }
            }
        }
        if forall|i: int| 0 <= i < values.len() ==> #[trigger] is_sound(marks, values, i) {
            assert forall|i: int| 0 <= i < fewer.len() implies #[trigger] is_sound(
                marks,
                fewer,
                i,
            ) by {
                assert(is_sound(marks, values, i));
            }
            assert(is_sound(marks, values, last));
        }
    }
}

/// Prepared accounts are refused where the cache is not pinned to the block, by its
/// hash, that they were prepared at.
pub proof fn law_prepared_accounts_need_their_block(
    cache: EvmCache,
    block_hash: B256,
    values: Seq<PreparedModel>,
)
    ensures
        patch_refusal(cache, block_hash, values) is None ==> cache.context.block is Hash
            && cache.context.block->block_hash == block_hash && first_refusal(
            cache.code_seeds@,
            values,
        ) is None,
        cache.context.block is Number ==> patch_refusal(cache, block_hash, values) is Some,
        cache.context.block is Hash && cache.context.block->block_hash == block_hash
            && first_refusal(cache.code_seeds@, values) is None ==> patch_refusal(
            cache,
            block_hash,
            values,
        ) is None,
{
}

/// Once distinct prepared accounts were taken in, each reads the balance, the nonce
/// and the code it was prepared with, and is marked as verified at the block told.
/// Every other account and every other mark stays.
pub proof fn law_prepared_accounts_are_read_back(
    layers: LayersModel,
    marks: Map<Address, CodeSeedState>,
    values: Seq<PreparedModel>,
    at: u64,
    address: Address,
)
    ensures
        forall|i: int|
            0 <= i < values.len() && (#[trigger] values[i]).address == address && (forall|later: int|
                i < later < values.len() ==> (#[trigger] values[later]).address != address) ==> {
                let now = with_prepared(layers, layers, values).info(address);
                &&& now is Some
                &&& now->0.balance == values[i].balance
                &&& now->0.nonce == values[i].nonce
                &&& now->0.code == Some(values[i].code)
                &&& lookup(marks_with_prepared(marks, values, at), address) == Some(
                    CodeSeedState::Verified {
                        code_hash: hash_of(values[i].code),
                        verified_at_block: at,
                    },
                )
            },
        (forall|i: int| 0 <= i < values.len() ==> (#[trigger] values[i]).address != address) ==> {
            &&& with_prepared(layers, layers, values).info(address) == layers.info(address)
            &&& lookup(marks_with_prepared(marks, values, at), address) == lookup(marks, address)
        },
    decreases values.len(),
{
    lemma_prepared(layers, layers, marks, values, at, address);
}

/// What taking prepared accounts in leaves of an account.
proof fn lemma_prepared(
    origin: LayersModel,
    layers: LayersModel,
    marks: Map<Address, CodeSeedState>,
    values: Seq<PreparedModel>,
    at: u64,
    address: Address,
)
    ensures
        forall|i: int|
            0 <= i < values.len() && (#[trigger] values[i]).address == address && (forall|later: int|
                i < later < values.len() ==> (#[trigger] values[later]).address != address) ==> {
                let now = with_prepared(origin, layers, values).info(address);
                &&& now is Some
                &&& now->0.balance == values[i].balance
                &&& now->0.nonce == values[i].nonce
                &&& now->0.code == Some(values[i].code)
                &&& lookup(marks_with_prepared(marks, values, at), address) == Some(
                    CodeSeedState::Verified {
                        code_hash: hash_of(values[i].code),
                        verified_at_block: at,
                    },
                )
            },
        (forall|i: int| 0 <= i < values.len() ==> (#[trigger] values[i]).address != address) ==> {
            &&& with_prepared(origin, layers, values).info(address) == layers.info(address)
            &&& lookup(marks_with_prepared(marks, values, at), address) == lookup(marks, address)
        },
    decreases values.len(),
{
    if values.len() > 0 {
        let fewer = values.drop_last();
        let last = values.len() - 1;
        assert(values[last] == values.last());
        lemma_prepared(origin, layers, marks, fewer, at, address);
        assert forall|i: int| 0 <= i < fewer.len() implies #[trigger] fewer[i] == values[i] by {}
        assert forall|i: int|
            0 <= i < values.len() && (#[trigger] values[i]).address == address && (forall|later: int|
                i < later < values.len() ==> (#[trigger] values[later]).address
                    != address) implies {
            let now = with_prepared(origin, layers, values).info(address);
            &&& now is Some
            &&& now->0.balance == values[i].balance
            &&& now->0.nonce == values[i].nonce
            &&& now->0.code == Some(values[i].code)
            &&& lookup(marks_with_prepared(marks, values, at), address) == Some(
                CodeSeedState::Verified {
                    code_hash: hash_of(values[i].code),
                    verified_at_block: at,
                },
            )
        } by {
            if i < last {
                assert(values[last].address != address);
                assert(fewer[i].address == address);
                assert forall|later: int| i < later < fewer.len() implies (
                #[trigger] fewer[later]).address != address by {
                    assert(values[later].address != address);
                }
            }
        }
        if forall|i: int| 0 <= i < values.len() ==> (#[trigger] values[i]).address != address {
            assert forall|i: int| 0 <= i < fewer.len() implies (#[trigger] fewer[i]).address
                != address by {
                assert(values[i].address != address);
            }
            assert(values[last].address != address);
        }
    }
}

} // verus!
