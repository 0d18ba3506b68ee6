//! How entries of mappings are found and written.

use crate::cache::account::InfoModel;
use crate::cache::erc20::{with_base_slots, with_entry, with_mappings, word_of};
use crate::cache::hashed_slots::{
    holder_slots, is_best_allowance, is_best_balance, leading_word, HashSlotAccess,
};
use crate::cache::layers::{lookup, LayersModel};
use crate::cache::mapping::{mapping_slot, SlotLayout, TrackedMapping};
use crate::foreign::keccak256_digest;
use crate::primitives::{be_bytes, be_value, Address, U256};
use vstd::prelude::*;

verus! {

/// Where an entry lies depends on the layout alone how: with the key before the base
/// slot, with the base slot before the key, or packed. So the first two agree where key
/// and base slot change places. A layout that is not derived has no entries.
pub proof fn law_layouts_mirror_each_other(base: nat, key: nat)
    ensures
        mapping_slot(SlotLayout::SolidityMapping, base, key) == mapping_slot(
            SlotLayout::VyperMapping,
            key,
            base,
        ),
        mapping_slot(SlotLayout::SolidityMapping, base, key) is Some,
        mapping_slot(SlotLayout::PackedMapping, base, key) is Some,
        mapping_slot(SlotLayout::Underived, base, key) is None,
{
}

/// An entry lies at the digest of its key's word followed by the base slot's word, or
/// the other way round, or of twenty bytes of key followed by twelve of base slot.
pub proof fn law_entries_lie_at_digests(base: U256, key: U256, packed_base: nat, packed_key: nat, p: Seq<u8>)
    requires
        p.len() == 64,
        p.take(32) == be_bytes(key@, 32),
        p.skip(32) == be_bytes(base@, 32),
    ensures
        mapping_slot(SlotLayout::SolidityMapping, base@, key@) == Some(keccak256_digest(p)),
        mapping_slot(SlotLayout::VyperMapping, key@, base@) == Some(keccak256_digest(p)),
        forall|q: Seq<u8>|
            q.len() == 32 && #[trigger] q.take(20) == be_bytes(packed_key, 20) && q.skip(20)
                == be_bytes(packed_base, 12) ==> mapping_slot(
                SlotLayout::PackedMapping,
                packed_base,
                packed_key,
            ) == Some(#[trigger] keccak256_digest(q)),
{
    assert(p =~= p.take(32) + p.skip(32));
    assert forall|q: Seq<u8>|
        q.len() == 32 && #[trigger] q.take(20) == be_bytes(packed_key, 20) && q.skip(20)
            == be_bytes(packed_base, 12) implies mapping_slot(
        SlotLayout::PackedMapping,
        packed_base,
        packed_key,
    ) == Some(#[trigger] keccak256_digest(q)) by {
        assert(q =~= q.take(20) + q.skip(20));
    }
}

/// An entry that was written reads its value from the slot where it lies. Nothing else
/// of the contract is read otherwise, where the contract was held or fetched, and
/// nothing of another account.
pub proof fn law_written_entries_are_read_back(
    layers: LayersModel,
    mapping: TrackedMapping,
    key: U256,
    value: U256,
    fetched: Option<InfoModel>,
    other: Address,
    other_slot: U256,
)
    ensures
        match (
            with_entry(layers, mapping, key, value, fetched),
            mapping_slot(mapping.layout, mapping.base_slot@, key@),
        ) {
            (Some(after), Some(lies)) => {
                let slot = U256::spec_from(lies);
                &&& after.slot(mapping.contract, slot) == Some(value)
                &&& other != mapping.contract ==> after.slot(other, other_slot) == layers.slot(
                    other,
                    other_slot,
                )
                &&& other_slot != slot && (layers.overlay.contains_key(mapping.contract)
                    || fetched is Some) ==> after.slot(mapping.contract, other_slot)
                    == layers.slot(mapping.contract, other_slot)
                &&& after.storage == layers.storage
                &&& after.accounts == layers.accounts
            },
            (None, None) => mapping.layout is Underived,
            _ => false,
        },
{
}

/// Every holder has its slot listed, in the order of the holders, at the place where
/// its entry lies; with a layout that is not derived nothing is listed.
pub proof fn law_every_holder_has_its_slot(mapping: TrackedMapping, holders: Seq<Address>)
    ensures
        mapping.layout is Underived ==> holder_slots(mapping, holders).len() == 0,
        !(mapping.layout is Underived) ==> {
            &&& holder_slots(mapping, holders).len() == holders.len()
            &&& forall|i: int|
                0 <= i < holders.len() ==> (#[trigger] holder_slots(mapping, holders)[i]).0
                    == holders[i] && holder_slots(mapping, holders)[i].1 == U256::spec_from(
                    mapping_slot(mapping.layout, mapping.base_slot@, holders[i]@)->0,
                )
        },
    decreases holders.len(),
{
    if holders.len() > 0 {
        let fewer = holders.drop_last();
        let last = holders.len() - 1;
        law_every_holder_has_its_slot(mapping, fewer);
        assert(holders[last] == holders.last());
        if !(mapping.layout is Underived) {
            let all = holder_slots(mapping, holders);
            assert forall|i: int| 0 <= i < holders.len() implies (#[trigger] all[i]).0 == holders[i]
                && all[i].1 == U256::spec_from(
                mapping_slot(mapping.layout, mapping.base_slot@, holders[i]@)->0,
            ) by {
                if i < last {
                    assert(all[i] == holder_slots(mapping, fewer)[i]);
                    assert(fewer[i] == holders[i]);
                }
            }
        }
    }
}

/// The slot that is taken for a balance is keyed by the owner. A slot that held what
/// was returned is preferred to one that did not; of those alike, the one that is
/// surer; of those, the one with fewer hashes; of those, the last.
pub proof fn law_the_best_balance_slot_is_taken(
    accesses: Seq<HashSlotAccess>,
    owner: U256,
    returned: U256,
    i: int,
    j: int,
)
    requires
        is_best_balance(accesses, owner, returned, i),
        0 <= j < accesses.len(),
        accesses[j].keys@.contains(owner),
    ensures
        accesses[i].keys@.contains(owner),
        accesses[j].value == returned ==> accesses[i].value == returned,
        (accesses[j].value == returned) == (accesses[i].value == returned)
            ==> accesses[i].confidence >= accesses[j].confidence,
        (accesses[j].value == returned) == (accesses[i].value == returned)
            && accesses[i].confidence == accesses[j].confidence ==> accesses[i].depth
            <= accesses[j].depth,
        (accesses[j].value == returned) == (accesses[i].value == returned)
            && accesses[i].confidence == accesses[j].confidence && accesses[i].depth
            == accesses[j].depth ==> j <= i,
{
    assert(accesses[i].keys@.contains(owner));
    assert(accesses[j].keys@.contains(owner));
}

/// The slot that is taken for an allowance is keyed by the owner and by the spender. One
/// with more hashes is preferred; of those alike, the one that is surer; of those, the
/// last.
pub proof fn law_the_best_allowance_slot_is_taken(
    accesses: Seq<HashSlotAccess>,
    owner: U256,
    spender: U256,
    i: int,
    j: int,
)
    requires
        is_best_allowance(accesses, owner, spender, i),
        0 <= j < accesses.len(),
        accesses[j].keys@.contains(owner),
        accesses[j].keys@.contains(spender),
    ensures
        accesses[i].keys@.contains(owner),
        accesses[i].keys@.contains(spender),
        accesses[i].depth >= accesses[j].depth,
        accesses[i].depth == accesses[j].depth ==> accesses[i].confidence
            >= accesses[j].confidence,
        accesses[i].depth == accesses[j].depth && accesses[i].confidence == accesses[j].confidence
            ==> j <= i,
{
    assert(accesses[i].keys@.contains(owner));
    assert(accesses[j].keys@.contains(owner));
}

/// What a call returned is read as its first word, and as a shorter number where it
/// returned less than a word.
pub proof fn law_the_first_word_is_read(data: Seq<u8>, more: Seq<u8>)
    ensures
        data.len() == 32 ==> leading_word(data + more) == be_value(data),
        data.len() <= 32 ==> leading_word(data) == be_value(data),
{
    if data.len() == 32 {
        assert((data + more).take(32) =~= data);
        assert(data.take(32) =~= data);
    }
}

/// A holder's address as a key is the same number.
pub proof fn law_holders_are_keys_of_their_number(holder: Address)
    ensures
        word_of(holder)@ == holder@,
{
}

/// The layouts that are told of tokens are those that are known of them: of several for
/// one token the last, and of a token that none was told of what was known. A base slot
/// alone stands for a mapping of the token with the key first.
pub proof fn law_told_layouts_are_known(
    known: Map<Address, TrackedMapping>,
    mappings: Seq<TrackedMapping>,
    token: Address,
)
    ensures
        forall|at: int|
            0 <= at < mappings.len() && (#[trigger] mappings[at]).contract == token && (forall|
                later: int,
            |
                at < later < mappings.len() ==> (#[trigger] mappings[later]).contract != token)
                ==> lookup(with_mappings(known, mappings), token) == Some(mappings[at]),
        (forall|i: int| 0 <= i < mappings.len() ==> (#[trigger] mappings[i]).contract != token)
            ==> lookup(with_mappings(known, mappings), token) == lookup(known, token),
    decreases mappings.len(),
{
    if mappings.len() > 0 {
        let fewer = mappings.drop_last();
        let last = mappings.len() - 1;
        assert(mappings[last] == mappings.last());
        law_told_layouts_are_known(known, fewer, token);
        assert forall|i: int| 0 <= i < fewer.len() implies #[trigger] fewer[i] == mappings[i] by {}
        assert forall|at: int|
            0 <= at < mappings.len() && (#[trigger] mappings[at]).contract == token && (forall|
                later: int,
            |
                at < later < mappings.len() ==> (#[trigger] mappings[later]).contract
                    != token) implies lookup(with_mappings(known, mappings), token) == Some(
            mappings[at],
        ) by {
            if at < last {
                assert(mappings[last].contract != token);
                assert(fewer[at].contract == token);
                assert forall|later: int| at < later < fewer.len() implies (
                #[trigger] fewer[later]).contract != token by {
                    assert(mappings[later].contract != token);
                }
            }
        }
        if forall|i: int| 0 <= i < mappings.len() ==> (#[trigger] mappings[i]).contract != token {
            assert forall|i: int| 0 <= i < fewer.len() implies (#[trigger] fewer[i]).contract
                != token by {
                assert(mappings[i].contract != token);
            }
            assert(mappings[last].contract != token);
        }
    }
}

/// A base slot that is told of a token stands for a mapping of the token that starts
/// there, with the key first.
pub proof fn law_told_base_slots_are_mappings(
    known: Map<Address, TrackedMapping>,
    slots: Seq<(Address, U256)>,
)
    ensures
        with_base_slots(known, slots) == with_mappings(
            known,
            Seq::new(
                slots.len(),
                |i: int|
                    TrackedMapping {
                        contract: slots[i].0,
                        base_slot: slots[i].1,
                        layout: SlotLayout::SolidityMapping,
                    },
            ),
        ),
    decreases slots.len(),
{
    let mappings = Seq::new(
        slots.len(),
        |i: int|
            TrackedMapping {
                contract: slots[i].0,
                base_slot: slots[i].1,
                layout: SlotLayout::SolidityMapping,
            },
    );
    if slots.len() > 0 {
        let fewer = slots.drop_last();
        law_told_base_slots_are_mappings(known, fewer);
        assert(mappings.drop_last() =~= Seq::new(
            fewer.len(),
            |i: int|
                TrackedMapping {
                    contract: fewer[i].0,
                    base_slot: fewer[i].1,
                    layout: SlotLayout::SolidityMapping,
                },
        ));
        assert(slots[slots.len() - 1] == slots.last());
    }
}

} // verus!
