//! Slot keys as extractor calldata, and extractor output as values.

use crate::bytes::Bytes;
use crate::primitives::{
    be_bytes, be_value, lemma_be_bytes_round_trip, lemma_byte_base_values, U256,
};
use vstd::prelude::*;

verus! {

/// The 32-byte words of `slots`, side by side.
pub open spec fn packed(slots: Seq<U256>) -> Seq<u8>
    decreases slots.len(),
{
    if slots.len() == 0 {
        Seq::empty()
    } else {
        packed(slots.drop_last()) + be_bytes(slots.last()@, 32)
    }
}

/// Packs slot keys into extractor calldata: the 32-byte words side by side.
pub fn pack_slots_calldata(slots: &[U256]) -> (r: Bytes)
    ensures
        r@ == packed(slots@),
{
    let mut out: Vec<u8> = Vec::new();
    let mut i: usize = 0;
    let n: usize = slots.len();
    while i < n
        invariant
            i <= n == slots@.len(),
            out@ == packed(slots@.take(i as int)),
        decreases n - i,
    {
        slots[i].append_to(&mut out);
        assert(slots@.take(i as int + 1).drop_last() =~= slots@.take(i as int));
        i = i + 1;
    }
    assert(slots@.take(n as int) =~= slots@);
    Bytes::from_vec(out)
}

/// The word at position `i` of a packed payload.
pub open spec fn packed_word(data: Seq<u8>, i: int) -> nat {
    be_value(data.subrange(32 * i, 32 * i + 32))
}

/// Decodes packed 32-byte words. There are none unless the payload is exactly
/// `expected` words long.
pub fn decode_packed_values(data: &[u8], expected: usize) -> (r: Option<Vec<U256>>)
    ensures
        r is Some <==> data@.len() == expected * 32,
        r matches Some(values) ==> values@.len() == expected && forall|i: int|
            0 <= i < expected ==> (#[trigger] values@[i])@ == packed_word(data@, i),
{
    let len: usize = data.len();
    if len % 32 != 0 || len / 32 != expected {
        return None;
    }
    let mut values: Vec<U256> = Vec::new();
    let mut i: usize = 0;
    while i < expected
        invariant
            i <= expected,
            data@.len() == expected * 32,
            data@.len() <= usize::MAX,
            values@.len() == i,
            forall|j: int| 0 <= j < i ==> (#[trigger] values@[j])@ == packed_word(data@, j),
        decreases expected - i,
    {
        values.push(U256::from_be_slice(data, 32 * i));
        i = i + 1;
    }
    Some(values)
}

/// A packed payload is 32 bytes per word long, and holds each word at its
/// place.
pub proof fn lemma_packed(slots: Seq<U256>)
    ensures
        packed(slots).len() == slots.len() * 32,
        forall|i: int|
            0 <= i < slots.len() ==> packed_word(packed(slots), i) == (#[trigger] slots[i])@,
    decreases slots.len(),
{
    if slots.len() > 0 {
        let less = slots.drop_last();
        let last = slots.last();
        lemma_packed(less);
        lemma_byte_base_values();
        U256::lemma_bound(last);
        lemma_be_bytes_round_trip(last@, 32);
        assert forall|i: int| 0 <= i < slots.len() implies packed_word(packed(slots), i) == (
        #[trigger] slots[i])@ by {
            let word = packed(slots).subrange(32 * i, 32 * i + 32);
            if i < less.len() {
                assert(word =~= packed(less).subrange(32 * i, 32 * i + 32));
                assert(less[i] == slots[i]);
            } else {
                assert(word =~= be_bytes(last@, 32));
            }
        }
    }
}

} // verus!
