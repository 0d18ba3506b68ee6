//! Picking the slot that a call keeps a value in from the slots that it read.

use crate::cache::account::AccountInfo;
use crate::cache::erc20::{fetched_model, word_of};
use crate::cache::evm_cache::EvmCache;
use crate::cache::layers::lookup;
use crate::cache::mapping::{mapping_slot, TrackedMapping};
use crate::errors::CacheError;
use crate::execution::{ExecutionModel, ExecutionResult};
use crate::primitives::{be_value, byte_base, lemma_be_value_concat, Address, U256};
use vstd::prelude::*;

verus! {

/// A slot with a derived place that a call read.
#[derive(Debug, PartialEq, Eq)]
pub struct HashSlotAccess {
    /// The slot.
    pub slot: U256,
    /// The value read.
    pub value: U256,
    /// The keys that the slot is derived from.
    pub keys: Vec<U256>,
    /// How sure the derivation is; higher is surer.
    pub confidence: u8,
    /// How many hashes the derivation takes.
    pub depth: usize,
    /// The mapping, where the slot is derived from one key.
    pub mapping: Option<TrackedMapping>,
}

impl HashSlotAccess {
    /// Whether a key is among those that the slot is derived from.
    pub fn keyed_by(&self, key: U256) -> (r: bool)
        ensures
            r == self.keys@.contains(key),
    {
        let mut i: usize = 0;
        while i < self.keys.len()
            invariant
                i <= self.keys.len(),
                forall|j: int| 0 <= j < i ==> self.keys@[j] != key,
            decreases self.keys.len() - i,
        {
            if self.keys[i] == key {
                assert(self.keys@.contains(self.keys@[i as int]));
                return true;
            }
            i = i + 1;
        }
        false
    }

    /// Whether a read is a worse guess at a returned value than another: one that
    /// read the value is better, then the surer, then the one of fewer hashes.
    pub open spec fn worse_balance(self, other: Self, returned: U256) -> bool {
        if (self.value == returned) != (other.value == returned) {
            other.value == returned
        } else if self.confidence != other.confidence {
            self.confidence < other.confidence
        } else {
            self.depth > other.depth
        }
    }

    /// Whether a read is a worse guess at an allowance than another: one of more
    /// hashes is better, then the surer.
    pub open spec fn worse_allowance(self, other: Self) -> bool {
        if self.depth != other.depth {
            self.depth < other.depth
        } else {
            self.confidence < other.confidence
        }
    }
}

/// Whether the read at a place is the best guess at a balance: the last of those
/// keyed by the owner that no other is better than.
pub open spec fn is_best_balance(
    accesses: Seq<HashSlotAccess>,
    owner: U256,
    returned: U256,
    i: int,
) -> bool {
    &&& 0 <= i < accesses.len()
    &&& accesses[i].keys@.contains(owner)
    &&& forall|j: int|
        #![trigger accesses[j]]
        0 <= j < accesses.len() && accesses[j].keys@.contains(owner) && j != i ==> if j < i {
            !accesses[i].worse_balance(accesses[j], returned)
        } else {
            accesses[j].worse_balance(accesses[i], returned)
        }
}

/// The place of the best guess at a balance.
pub fn best_balance_access(accesses: &Vec<HashSlotAccess>, owner: Address, returned: U256) -> (r:
    Option<usize>)
    ensures
        match r {
            Some(i) => is_best_balance(accesses@, word_of(owner), returned, i as int),
            None => forall|j: int|
                0 <= j < accesses@.len() ==> !(#[trigger] accesses@[j]).keys@.contains(
                    word_of(owner),
                ),
        },
{
    let key: U256 = owner.into_word();
    proof {
        U256::lemma_injective(key, word_of(owner));
    }
    let mut best: Option<usize> = None;
    let mut i: usize = 0;
    while i < accesses.len()
        invariant
            i <= accesses.len(),
            key == word_of(owner),
            match best {
                Some(b) => b < i && is_best_balance(
                    accesses@.take(i as int),
                    key,
                    returned,
                    b as int,
                ),
                None => forall|j: int|
                    0 <= j < i ==> !(#[trigger] accesses@[j]).keys@.contains(key),
            },
        decreases accesses.len() - i,
    {
        let ghost before = best;
        let ghost seen = accesses@.take(i as int);
        let ghost next = accesses@.take(i + 1);
        proof {
            assert forall|j: int| 0 <= j < i implies #[trigger] next[j] == seen[j] by {}
        }
        if accesses[i].keyed_by(key) {
            let better: bool = match best {
                Some(b) => {
                    let held: &HashSlotAccess = &accesses[b];
                    let new: &HashSlotAccess = &accesses[i];
                    if (held.value == returned) != (new.value == returned) {
                        new.value == returned
                    } else if held.confidence != new.confidence {
                        held.confidence < new.confidence
                    } else {
                        held.depth >= new.depth
                    }
                },
                None => true,
            };
            if better {
                best = Some(i);
                proof {
                    assert forall|j: int|
                        #![trigger next[j]]
                        0 <= j < i && next[j].keys@.contains(key) implies !next[i as int].worse_balance(
                        next[j],
                        returned,
                    ) by {
                        if let Some(b) = before {
                            assert(seen[j] == next[j]);
                            assert(seen[b as int] == accesses@[b as int]);
                        }
                    }
                }
            }
        }
        i = i + 1;
    }
    assert(accesses@.take(i as int) =~= accesses@);
    best
}

/// Whether the read at a place is the best guess at an allowance: the last of
/// those keyed by owner and spender that no other is better than.
pub open spec fn is_best_allowance(
    accesses: Seq<HashSlotAccess>,
    owner: U256,
    spender: U256,
    i: int,
) -> bool {
    &&& 0 <= i < accesses.len()
    &&& accesses[i].keys@.contains(owner)
    &&& accesses[i].keys@.contains(spender)
    &&& forall|j: int|
        #![trigger accesses[j]]
        0 <= j < accesses.len() && accesses[j].keys@.contains(owner) && accesses[j].keys@.contains(
            spender,
        ) && j != i ==> if j < i {
            !accesses[i].worse_allowance(accesses[j])
        } else {
            accesses[j].worse_allowance(accesses[i])
        }
}

/// The place of the best guess at an allowance.
pub fn best_allowance_access(
    accesses: &Vec<HashSlotAccess>,
    owner: Address,
    spender: Address,
) -> (r: Option<usize>)
    ensures
        match r {
            Some(i) => is_best_allowance(accesses@, word_of(owner), word_of(spender), i as int),
            None => forall|j: int|
                0 <= j < accesses@.len() ==> !((#[trigger] accesses@[j]).keys@.contains(
                    word_of(owner),
                ) && accesses@[j].keys@.contains(word_of(spender))),
        },
{
    let owner_key: U256 = owner.into_word();
    let spender_key: U256 = spender.into_word();
    proof {
        U256::lemma_injective(owner_key, word_of(owner));
        U256::lemma_injective(spender_key, word_of(spender));
    }
    let mut best: Option<usize> = None;
    let mut i: usize = 0;
    while i < accesses.len()
        invariant
            i <= accesses.len(),
            owner_key == word_of(owner),
            spender_key == word_of(spender),
            match best {
                Some(b) => b < i && is_best_allowance(
                    accesses@.take(i as int),
                    owner_key,
                    spender_key,
                    b as int,
                ),
                None => forall|j: int|
                    0 <= j < i ==> !((#[trigger] accesses@[j]).keys@.contains(owner_key)
                        && accesses@[j].keys@.contains(spender_key)),
            },
        decreases accesses.len() - i,
    {
        let ghost before = best;
        let ghost seen = accesses@.take(i as int);
        let ghost next = accesses@.take(i + 1);
        proof {
            assert forall|j: int| 0 <= j < i implies #[trigger] next[j] == seen[j] by {}
        }
        if accesses[i].keyed_by(owner_key) && accesses[i].keyed_by(spender_key) {
            let better: bool = match best {
                Some(b) => {
                    let held: &HashSlotAccess = &accesses[b];
                    let new: &HashSlotAccess = &accesses[i];
                    if held.depth != new.depth {
                        held.depth < new.depth
                    } else {
                        held.confidence <= new.confidence
                    }
                },
                None => true,
            };
            if better {
                best = Some(i);
                proof {
                    assert forall|j: int|
                        #![trigger next[j]]
                        0 <= j < i && next[j].keys@.contains(owner_key) && next[j].keys@.contains(
                            spender_key,
                        ) implies !next[i as int].worse_allowance(next[j]) by {
                        if let Some(b) = before {
                            assert(seen[j] == next[j]);
                            assert(seen[b as int] == accesses@[b as int]);
                        }
                    }
                }
            }
        }
        i = i + 1;
    }
    assert(accesses@.take(i as int) =~= accesses@);
    best
}

/// The word that returned bytes start with, or the number that they are where
/// they are fewer.
pub open spec fn leading_word(data: Seq<u8>) -> nat {
    if data.len() >= 32 {
        be_value(data.take(32))
    } else {
        be_value(data)
    }
}

/// Zero bytes stand for zero.
proof fn lemma_zeros(zeros: Seq<u8>)
    requires
        forall|i: int| 0 <= i < zeros.len() ==> zeros[i] == 0,
    ensures
        be_value(zeros) == 0,
    decreases zeros.len(),
{
    if zeros.len() > 0 {
        lemma_zeros(zeros.drop_last());
    }
}

/// The word that returned bytes start with, or the number that they are where
/// they are fewer.
pub fn returned_value(data: &[u8]) -> (r: U256)
    ensures
        r@ == leading_word(data@),
{
    if data.len() >= 32 {
        assert(data@.subrange(0, 32) =~= data@.take(32));
        return U256::from_be_slice(data, 0);
    }
    let mut padded: Vec<u8> = Vec::new();
    let missing: usize = 32 - data.len();
    while padded.len() < missing
        invariant
            padded@.len() <= missing,
            missing <= 32,
            forall|i: int| 0 <= i < padded@.len() ==> padded@[i] == 0,
        decreases missing - padded.len(),
    {
        padded.push(0);
    }
    let ghost zeros = padded@;
    padded.extend_from_slice(data);
    proof {
        lemma_zeros(zeros);
        lemma_be_value_concat(zeros, data@);
        assert(padded@ =~= zeros + data@);
        assert(padded@.subrange(0, 32) =~= padded@);
        assert(0 * byte_base(data@.len()) == 0) by (nonlinear_arith);
    }
    U256::from_be_slice(padded.as_slice(), 0)
}

/// The place of the read that tells where a token keeps the owner's balance, from
/// the end of a `balanceOf` call and the slots that it read. A call that did not
/// return tells nothing.
pub fn discovered_balance_slot(
    result: &ExecutionResult,
    accesses: &Vec<HashSlotAccess>,
    owner: Address,
) -> (r: Option<usize>)
    ensures
        match result@ {
            ExecutionModel::Success { output, .. } => match r {
                Some(i) => is_best_balance(
                    accesses@,
                    word_of(owner),
                    U256::spec_from(leading_word(output)),
                    i as int,
                ),
                None => forall|j: int|
                    0 <= j < accesses@.len() ==> !(#[trigger] accesses@[j]).keys@.contains(
                        word_of(owner),
                    ),
            },
            _ => r is None,
        },
{
    match result {
        ExecutionResult::Success { output, .. } => {
            let returned: U256 = returned_value(output.as_slice());
            proof {
                U256::lemma_spec_from(returned);
            }
            best_balance_access(accesses, owner, returned)
        },
        _ => None,
    }
}

/// Holders with the slots of their entries, in order; holders whose slot does not
/// follow from one key are left out.
pub open spec fn holder_slots(mapping: TrackedMapping, holders: Seq<Address>) -> Seq<
    (Address, U256),
>
    decreases holders.len(),
{
    if holders.len() == 0 {
        Seq::empty()
    } else {
        let rest = holder_slots(mapping, holders.drop_last());
        match mapping_slot(mapping.layout, mapping.base_slot@, holders.last()@) {
            Some(slot) => rest.push((holders.last(), U256::spec_from(slot))),
            None => rest,
        }
    }
}

/// Holders with the slots of their entries.
pub fn slots_for(mapping: &TrackedMapping, holders: &Vec<Address>) -> (r: Vec<(Address, U256)>)
    ensures
        r@ == holder_slots(*mapping, holders@),
{
    let mut pairs: Vec<(Address, U256)> = Vec::new();
    let mut i: usize = 0;
    assert(holders@.take(0) =~= Seq::empty());
    while i < holders.len()
        invariant
            i <= holders.len(),
            pairs@ == holder_slots(*mapping, holders@.take(i as int)),
        decreases holders.len() - i,
    {
        assert(holders@.take(i + 1).drop_last() =~= holders@.take(i as int));
        if let Some(slot) = mapping.slot_for(holders[i].into_word()) {
            proof {
                U256::lemma_spec_from(slot);
            }
            pairs.push((holders[i], slot));
        }
        i = i + 1;
    }
    assert(holders@.take(i as int) =~= holders@);
    pairs
}

/// Whether tracking came to what the mapping known, or the one discovered by
/// way of the first holder, gives.
pub open spec fn is_tracked<P>(
    known: Map<Address, TrackedMapping>,
    token: Address,
    holders: Seq<Address>,
    probe: P,
    after: Map<Address, TrackedMapping>,
    r: Result<Option<(TrackedMapping, Vec<(Address, U256)>)>, CacheError>,
) -> bool where P: FnOnce(Address) -> Result<Option<TrackedMapping>, CacheError> {
    match lookup(known, token) {
        Some(mapping) => {
            &&& after == known
            &&& r matches Ok(Some(found))
            &&& found.0 == mapping
            &&& found.1@ == holder_slots(mapping, holders)
        },
        None => if holders.len() == 0 {
            after == known && r == Ok::<_, CacheError>(
                None::<(TrackedMapping, Vec<(Address, U256)>)>,
            )
        } else {
            exists|answer: Result<Option<TrackedMapping>, CacheError>| #[trigger]
                call_ensures(probe, (holders[0],), answer) && match answer {
                    Ok(Some(mapping)) => {
                        &&& after == known.insert(token, mapping)
                        &&& r matches Ok(Some(found))
                        &&& found.0 == mapping
                        &&& found.1@ == holder_slots(mapping, holders)
                    },
                    Ok(None) => after == known && r == Ok::<_, CacheError>(
                        None::<(TrackedMapping, Vec<(Address, U256)>)>,
                    ),
                    Err(error) => after == known && r == Err::<
                        Option<(TrackedMapping, Vec<(Address, U256)>)>,
                        CacheError,
                    >(error),
                }
        },
    }
}

impl EvmCache {
    /// The mapping that a token keeps balances in, and the slots of holders. A
    /// mapping that is not known is discovered by way of the first holder, and is
    /// known from then on.
    pub fn track_erc20_balances<P>(&mut self, token: Address, holders: &Vec<Address>, probe: P) -> (r:
        Result<Option<(TrackedMapping, Vec<(Address, U256)>)>, CacheError>) where
        P: FnOnce(Address) -> Result<Option<TrackedMapping>, CacheError>,

        requires
            old(self).wf(),
            forall|holder: Address| #[trigger] call_requires(probe, (holder,)),
        ensures
            final(self).wf(),
            *final(self) == (EvmCache {
                erc20_balance_slots: final(self).erc20_balance_slots,
                ..*old(self)
            }),
            is_tracked(
                old(self).erc20_balance_slots@,
                token,
                holders@,
                probe,
                final(self).erc20_balance_slots@,
                r,
            ),
    {
        let known: Option<TrackedMapping> = match self.erc20_balance_slots.get(&token) {
            Some(mapping) => Some(*mapping),
            None => None,
        };
        let mapping: TrackedMapping = match known {
            Some(mapping) => mapping,
            None => {
                if holders.len() == 0 {
                    return Ok(None);
                }
                let holder: Address = holders[0];
                match probe(holder) {
                    Ok(Some(mapping)) => {
                        self.erc20_balance_slots.insert(token, mapping);
                        mapping
                    },
                    Ok(None) => return Ok(None),
                    Err(error) => return Err(error),
                }
            },
        };
        let pairs: Vec<(Address, U256)> = slots_for(&mapping, holders);
        Ok(Some((mapping, pairs)))
    }

    /// Writes an allowance at the slot that the reads of an `allowance` call point
    /// to; nothing is written, and the result is false, where none is keyed by
    /// both owner and spender. `fetched` is the token as fetched, for a token that
    /// the overlay does not hold.
    pub fn write_allowance(
        &mut self,
        token: Address,
        owner: Address,
        spender: Address,
        amount: U256,
        accesses: &Vec<HashSlotAccess>,
        fetched: Option<AccountInfo>,
    ) -> (r: bool)
        requires
            old(self).wf(),
        ensures
            final(self).wf(),
            *final(self) == (EvmCache { layers: final(self).layers, ..*old(self) }),
            r ==> exists|i: int|
                #![trigger accesses@[i]]
                final(self).layers@ == old(self).layers@.with_overlay_slot(
                    token,
                    accesses@[i].slot,
                    amount,
                    fetched_model(fetched),
                ) && is_best_allowance(accesses@, word_of(owner), word_of(spender), i),
            !r ==> *final(self) == *old(self) && forall|j: int|
                0 <= j < accesses@.len() ==> !((#[trigger] accesses@[j]).keys@.contains(
                    word_of(owner),
                ) && accesses@[j].keys@.contains(word_of(spender))),
    {
        match best_allowance_access(accesses, owner, spender) {
            Some(i) => {
                self.insert_storage_slot(token, accesses[i].slot, amount, fetched);
                assert(is_best_allowance(
                    accesses@,
                    word_of(owner),
                    word_of(spender),
                    i as int,
                ));
                true
            },
            None => false,
        }
    }
}

} // verus!
