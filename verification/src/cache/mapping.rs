//! Where contracts keep the entries of a mapping.

use crate::collections::Duplicate;
use crate::foreign::{keccak256, keccak256_digest};
use crate::primitives::{be_bytes, Address, U256};
use vstd::prelude::*;

verus! {

/// How the slot of an entry follows from its key and the mapping's base slot.
#[derive(Clone, Copy, Debug, PartialEq, Eq, Structural)]
pub enum SlotLayout {
    /// The hash of the key, then the base slot.
    SolidityMapping,
    /// The hash of the base slot, then the key.
    VyperMapping,
    /// The hash of the last twenty bytes of the key, then the last twelve bytes of
    /// the base slot, in one word, as Solady keeps balances.
    PackedMapping,
    /// It does not follow from one key.
    Underived,
}

/// Where a contract keeps the entries of one mapping.
#[derive(Clone, Copy, Debug, PartialEq, Eq, Structural)]
pub struct TrackedMapping {
    /// The contract.
    pub contract: Address,
    /// The base slot.
    pub base_slot: U256,
    /// How slots follow from keys.
    pub layout: SlotLayout,
}

impl Duplicate for TrackedMapping {
    open spec fn same(&self, other: &Self) -> bool {
        *self == *other
    }

    fn duplicate(&self) -> (r: Self) {
        *self
    }
}

/// The slot of an entry, as a number.
pub open spec fn mapping_slot(layout: SlotLayout, base_slot: nat, key: nat) -> Option<nat> {
    match layout {
        SlotLayout::SolidityMapping => Some(
            keccak256_digest(be_bytes(key, 32) + be_bytes(base_slot, 32)),
        ),
        SlotLayout::VyperMapping => Some(
            keccak256_digest(be_bytes(base_slot, 32) + be_bytes(key, 32)),
        ),
        SlotLayout::PackedMapping => Some(
            keccak256_digest(be_bytes(key, 20) + be_bytes(base_slot, 12)),
        ),
        SlotLayout::Underived => None,
    }
}

/// The last bytes of a number are those of the shorter spelling.
proof fn lemma_be_bytes_end(value: nat, skipped: nat, n: nat)
    ensures
        be_bytes(value, skipped + n).len() == skipped + n,
        be_bytes(value, skipped + n).skip(skipped as int) == be_bytes(value, n),
    decreases n,
{
    let all = be_bytes(value, skipped + n);
    lemma_be_bytes_len(value, skipped + n);
    if n == 0 {
        assert(all.skip(skipped as int) =~= be_bytes(value, n));
    } else {
        let rest = (n - 1) as nat;
        lemma_be_bytes_end(value / 256, skipped, rest);
        assert((skipped + n - 1) as nat == skipped + rest);
        assert(all.skip(skipped as int) =~= be_bytes(value, n));
    }
}

/// A spelling is as long as asked for.
proof fn lemma_be_bytes_len(value: nat, n: nat)
    ensures
        be_bytes(value, n).len() == n,
    decreases n,
{
    if n > 0 {
        lemma_be_bytes_len(value / 256, (n - 1) as nat);
    }
}

/// Appends the last `n` bytes of a word.
fn append_end(out: &mut Vec<u8>, word: U256, n: usize)
    requires
        n <= 32,
    ensures
        final(out)@ == old(out)@ + be_bytes(word@, n as nat),
{
    let mut bytes: Vec<u8> = Vec::new();
    word.append_to(&mut bytes);
    assert(bytes@ =~= be_bytes(word@, 32));
    proof {
        lemma_be_bytes_end(word@, (32 - n) as nat, n as nat);
    }
    let end: &[u8] = vstd::slice::slice_subrange(bytes.as_slice(), 32 - n, 32);
    assert(end@ =~= be_bytes(word@, n as nat));
    out.extend_from_slice(end);
    assert(out@ =~= old(out)@ + be_bytes(word@, n as nat));
}

/// The hash of the end of a key and the end of a base slot in one word.
fn hash_packed(key: U256, base_slot: U256) -> (r: U256)
    ensures
        r@ == keccak256_digest(be_bytes(key@, 20) + be_bytes(base_slot@, 12)),
{
    let mut data: Vec<u8> = Vec::new();
    append_end(&mut data, key, 20);
    append_end(&mut data, base_slot, 12);
    assert(data@ =~= be_bytes(key@, 20) + be_bytes(base_slot@, 12));
    keccak256(data.as_slice()).to_word()
}

/// The hash of two words.
fn hash_pair(first: U256, second: U256) -> (r: U256)
    ensures
        r@ == keccak256_digest(be_bytes(first@, 32) + be_bytes(second@, 32)),
{
    let mut data: Vec<u8> = Vec::new();
    first.append_to(&mut data);
    second.append_to(&mut data);
    assert(data@ =~= be_bytes(first@, 32) + be_bytes(second@, 32));
    keccak256(data.as_slice()).to_word()
}

impl TrackedMapping {
    /// A mapping.
    pub fn new(contract: Address, base_slot: U256, layout: SlotLayout) -> (r: Self)
        ensures
            r == (TrackedMapping { contract, base_slot, layout }),
    {
        TrackedMapping { contract, base_slot, layout }
    }

    /// The slot of the entry with a key, where it follows from one key.
    pub fn slot_for(&self, key: U256) -> (r: Option<U256>)
        ensures
            (match r {
                Some(slot) => Some(slot@),
                None => None,
            }) == mapping_slot(self.layout, self.base_slot@, key@),
    {
        match self.layout {
            SlotLayout::SolidityMapping => Some(hash_pair(key, self.base_slot)),
            SlotLayout::VyperMapping => Some(hash_pair(self.base_slot, key)),
            SlotLayout::PackedMapping => Some(hash_packed(key, self.base_slot)),
            SlotLayout::Underived => None,
        }
    }
}

} // verus!
