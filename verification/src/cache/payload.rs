//! Addresses, words and hashes as the byte strings of saved payloads.

use crate::primitives::{
    be_bytes, be_value, byte_base, lemma_be_bytes_round_trip, lemma_byte_base_values, Address,
    B256, U256,
};
use vstd::prelude::*;

verus! {

/// The address that a byte string spells, if it has the length of one.
pub open spec fn address_in(bytes: Seq<u8>) -> Option<Address> {
    if bytes.len() == 20 {
        Some(Address::spec_from(be_value(bytes)))
    } else {
        None
    }
}

/// The word that a byte string spells, if it has the length of one.
pub open spec fn word_in(bytes: Seq<u8>) -> Option<U256> {
    if bytes.len() == 32 {
        Some(U256::spec_from(be_value(bytes)))
    } else {
        None
    }
}

/// The hash that a byte string spells, if it has the length of one.
pub open spec fn hash_in(bytes: Seq<u8>) -> Option<B256> {
    if bytes.len() == 32 {
        Some(B256::spec_from(be_value(bytes)))
    } else {
        None
    }
}

/// The address that a byte string spells, if it has the length of one.
pub fn read_address(bytes: &Vec<u8>) -> (r: Option<Address>)
    ensures
        r == address_in(bytes@),
{
    if bytes.len() != 20 {
        return None;
    }
    let address: Address = Address::from_slice(bytes.as_slice(), 0);
    proof {
        assert(bytes@.subrange(0, 20) =~= bytes@);
        Address::lemma_spec_from(address);
    }
    Some(address)
}

/// The word that a byte string spells, if it has the length of one.
pub fn read_word(bytes: &Vec<u8>) -> (r: Option<U256>)
    ensures
        r == word_in(bytes@),
{
    if bytes.len() != 32 {
        return None;
    }
    let word: U256 = U256::from_be_slice(bytes.as_slice(), 0);
    proof {
        assert(bytes@.subrange(0, 32) =~= bytes@);
        U256::lemma_spec_from(word);
    }
    Some(word)
}

/// The hash that a byte string spells, if it has the length of one.
pub fn read_hash(bytes: &Vec<u8>) -> (r: Option<B256>)
    ensures
        r == hash_in(bytes@),
{
    if bytes.len() != 32 {
        return None;
    }
    let hash: B256 = B256::from_slice(bytes.as_slice(), 0);
    proof {
        assert(bytes@.subrange(0, 32) =~= bytes@);
        B256::lemma_spec_from(hash);
    }
    Some(hash)
}

/// The bytes of a word.
pub fn word_bytes(word: U256) -> (r: Vec<u8>)
    ensures
        r@ == be_bytes(word@, 32),
{
    let mut out: Vec<u8> = Vec::new();
    word.append_to(&mut out);
    assert(out@ =~= be_bytes(word@, 32));
    out
}

/// An address is spelled by its bytes.
pub proof fn lemma_address_comes_back(address: Address)
    ensures
        address_in(be_bytes(address@, 20)) == Some(address),
{
    reveal_with_fuel(byte_base, 21);
    lemma_be_bytes_round_trip(address@, 20);
    Address::lemma_spec_from(address);
}

/// A word is spelled by its bytes.
pub proof fn lemma_word_comes_back(word: U256)
    ensures
        word_in(be_bytes(word@, 32)) == Some(word),
{
    lemma_byte_base_values();
    U256::lemma_bound(word);
    lemma_be_bytes_round_trip(word@, 32);
    U256::lemma_spec_from(word);
}

/// A hash is spelled by its bytes.
pub proof fn lemma_hash_comes_back(hash: B256)
    ensures
        hash_in(be_bytes(hash@, 32)) == Some(hash),
{
    lemma_byte_base_values();
    lemma_be_bytes_round_trip(hash@, 32);
    B256::lemma_spec_from(hash);
}

} // verus!
