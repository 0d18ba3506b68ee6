//! Reading and writing token balances.

use crate::bytes::Bytes;
use crate::cache::account::{AccountInfo, InfoModel};
use crate::cache::evm_cache::EvmCache;
use crate::cache::layers::{lookup, LayersModel};
use crate::cache::mapping::{mapping_slot, SlotLayout, TrackedMapping};
use crate::errors::CacheError;
use crate::execution::{ExecutionModel, ExecutionResult, Log, logs_model};
use crate::foreign::{decode_uint256, decode_uint8, uint256_result};
use crate::primitives::{be_bytes, Address, U256};
use vstd::prelude::*;

verus! {

/// The selector of `balanceOf(address)`.
pub const BALANCE_OF_SELECTOR: [u8; 4] = [0x70, 0xa0, 0x82, 0x31];

/// The selector of `allowance(address,address)`.
pub const ALLOWANCE_SELECTOR: [u8; 4] = [0xdd, 0x62, 0xed, 0x3e];

/// The selector of `decimals()`.
pub const DECIMALS_SELECTOR: [u8; 4] = [0x31, 0x3c, 0xe5, 0x67];

/// The calldata of `balanceOf`.
pub fn balance_of_calldata(owner: Address) -> (r: Bytes)
    ensures
        r@ == BALANCE_OF_SELECTOR@ + be_bytes(owner@, 32),
{
    let mut data: Vec<u8> = Vec::new();
    data.extend_from_slice(&BALANCE_OF_SELECTOR);
    owner.into_word().append_to(&mut data);
    assert(data@ =~= BALANCE_OF_SELECTOR@ + be_bytes(owner@, 32));
    Bytes::from_vec(data)
}

/// The calldata of `allowance`.
pub fn allowance_calldata(owner: Address, spender: Address) -> (r: Bytes)
    ensures
        r@ == ALLOWANCE_SELECTOR@ + be_bytes(owner@, 32) + be_bytes(spender@, 32),
{
    let mut data: Vec<u8> = Vec::new();
    data.extend_from_slice(&ALLOWANCE_SELECTOR);
    owner.into_word().append_to(&mut data);
    spender.into_word().append_to(&mut data);
    assert(data@ =~= ALLOWANCE_SELECTOR@ + be_bytes(owner@, 32) + be_bytes(spender@, 32));
    Bytes::from_vec(data)
}

/// The calldata of `decimals`.
pub fn decimals_calldata() -> (r: Bytes)
    ensures
        r@ == DECIMALS_SELECTOR@,
{
    let mut data: Vec<u8> = Vec::new();
    data.extend_from_slice(&DECIMALS_SELECTOR);
    assert(data@ =~= DECIMALS_SELECTOR@);
    Bytes::from_vec(data)
}

/// Whether a read of a word came to the word that the call returned: a call that
/// did not return is an error that keeps how it ended, and one that returned less
/// than a word is an error too.
pub open spec fn is_word_read(
    result: ExecutionResult,
    what: Seq<char>,
    r: Result<U256, CacheError>,
) -> bool {
    match result@ {
        ExecutionModel::Success { output, .. } => match uint256_result(output) {
            Some(value) => r matches Ok(word) && word@ == value,
            None => r matches Err(CacheError::Decode { what: told, details }) && told@ == what
                && details@ == "Overrun"@,
        },
        _ => r == Err::<U256, CacheError>(CacheError::CallNotSuccessful { result }),
    }
}

/// The word that a call returned.
fn returned_word(result: ExecutionResult, what: &'static str) -> (r: Result<U256, CacheError>)
    ensures
        is_word_read(result, what@, r),
{
    match result {
        ExecutionResult::Success { output, .. } => match decode_uint256(output.as_slice()) {
            Ok(value) => Ok(value),
            Err(details) => Err(CacheError::Decode { what, details }),
        },
        failed => Err(CacheError::CallNotSuccessful { result: failed }),
    }
}

/// The balance that `balanceOf` returned.
pub fn erc20_balance(result: ExecutionResult) -> (r: Result<U256, CacheError>)
    ensures
        is_word_read(result, "ERC20 balanceOf return data"@, r),
{
    returned_word(result, "ERC20 balanceOf return data")
}

/// The allowance that `allowance` returned.
pub fn erc20_allowance(result: ExecutionResult) -> (r: Result<U256, CacheError>)
    ensures
        is_word_read(result, "ERC20 allowance return data"@, r),
{
    returned_word(result, "ERC20 allowance return data")
}

/// The events and the gas of a call that returned.
pub fn call_logs(result: ExecutionResult) -> (r: Result<(Vec<Log>, u64), CacheError>)
    ensures
        match result@ {
            ExecutionModel::Success { gas_used, logs, .. } => r matches Ok(told) && logs_model(
                told.0@,
            ) == logs && told.1 == gas_used,
            _ => r == Err::<(Vec<Log>, u64), CacheError>(
                CacheError::CallNotSuccessful { result },
            ),
        },
{
    match result {
        ExecutionResult::Success { logs, gas_used, .. } => Ok((logs, gas_used)),
        failed => Err(CacheError::CallNotSuccessful { result: failed }),
    }
}

/// Layers with an entry of a mapping written to the overlay; nothing where the
/// entry's slot does not follow from its key.
pub open spec fn with_entry(
    layers: LayersModel,
    mapping: TrackedMapping,
    key: U256,
    value: U256,
    fetched: Option<InfoModel>,
) -> Option<LayersModel> {
    match mapping_slot(mapping.layout, mapping.base_slot@, key@) {
        Some(slot) => Some(
            layers.with_overlay_slot(mapping.contract, U256::spec_from(slot), value, fetched),
        ),
        None => None,
    }
}

/// Whether an error tells that the slots of a mapping do not follow from one key:
/// it names the contract, no slot, and the layout.
pub open spec fn is_underived_error(error: CacheError, mapping: TrackedMapping) -> bool {
    &&& error matches CacheError::StorageInsert { address, slot, details }
    &&& address == mapping.contract
    &&& slot == U256::spec_zero()
    &&& mapping.layout is Underived
    &&& details@ == "layout Underived does not support single-key slot derivation"@
}

/// What is known of an account that was fetched.
pub open spec fn fetched_model(fetched: Option<AccountInfo>) -> Option<InfoModel> {
    match fetched {
        Some(info) => Some(info@),
        None => None,
    }
}

/// Mappings with base slots of tokens noted, one after the other.
pub open spec fn with_base_slots(
    known: Map<Address, TrackedMapping>,
    slots: Seq<(Address, U256)>,
) -> Map<Address, TrackedMapping>
    decreases slots.len(),
{
    if slots.len() == 0 {
        known
    } else {
        let last = slots.last();
        with_base_slots(known, slots.drop_last()).insert(
            last.0,
            TrackedMapping {
                contract: last.0,
                base_slot: last.1,
                layout: SlotLayout::SolidityMapping,
            },
        )
    }
}

/// Mappings with mappings of tokens noted, one after the other.
pub open spec fn with_mappings(
    known: Map<Address, TrackedMapping>,
    mappings: Seq<TrackedMapping>,
) -> Map<Address, TrackedMapping>
    decreases mappings.len(),
{
    if mappings.len() == 0 {
        known
    } else {
        with_mappings(known, mappings.drop_last()).insert(
            mappings.last().contract,
            mappings.last(),
        )
    }
}

impl EvmCache {
    /// The decimals of a token that are known, or those that `decimals` returned:
    /// a call that did not return is an error that keeps how it ended, and one that
    /// returned less than a word is an error too. `result` is the end of the call, which
    /// is made only where the decimals are not known.
    pub fn erc20_decimals(&mut self, token: Address, result: ExecutionResult) -> (r: Result<
        u8,
        CacheError,
    >)
        requires
            old(self).wf(),
        ensures
            final(self).wf(),
            *final(self) == (EvmCache {
                token_decimals: final(self).token_decimals,
                immutable_cache: final(self).immutable_cache,
                ..*old(self)
            }),
            match (lookup(old(self).token_decimals@, token), result@) {
                (Some(decimals), _) => r == Ok::<u8, CacheError>(decimals) && *final(self) == *old(
                    self,
                ),
                (None, ExecutionModel::Success { output, .. }) => if output.len() >= 32 {
                    &&& r == Ok::<u8, CacheError>(output[31])
                    &&& final(self).token_decimals@ == old(self).token_decimals@.insert(
                        token,
                        output[31],
                    )
                    &&& final(self).immutable_cache@ == old(self).immutable_cache@.insert(
                        token,
                        output[31],
                    )
                } else {
                    &&& r matches Err(CacheError::Decode { what, details })
                    &&& what@ == "ERC20 decimals return data"@
                    &&& details@ == "Overrun"@
                    &&& *final(self) == *old(self)
                },
                _ => {
                    &&& r == Err::<u8, CacheError>(CacheError::CallNotSuccessful { result })
                    &&& *final(self) == *old(self)
                },
            },
    {
        match self.token_decimals.get(&token) {
            Some(decimals) => return Ok(*decimals),
            None => {},
        }
        match result {
            ExecutionResult::Success { output, .. } => match decode_uint8(output.as_slice()) {
                Ok(decimals) => {
                    self.token_decimals.insert(token, decimals);
                    self.immutable_cache.set_token_decimals(token, decimals);
                    Ok(decimals)
                },
                Err(details) => Err(
                    CacheError::Decode { what: "ERC20 decimals return data", details },
                ),
            },
            failed => Err(CacheError::CallNotSuccessful { result: failed }),
        }
    }

    /// The decimals of a token, if known.
    pub fn known_decimals(&self, token: Address) -> (r: Option<u8>)
        ensures
            r == lookup(self.token_decimals@, token),
    {
        match self.token_decimals.get(&token) {
            Some(decimals) => Some(*decimals),
            None => None,
        }
    }

    /// Notes base slots of token balances, in the layout of Solidity. Later
    /// entries replace earlier ones.
    pub fn seed_erc20_balance_slots(&mut self, slots: &[(Address, U256)])
        requires
            old(self).wf(),
        ensures
            final(self).wf(),
            final(self).erc20_balance_slots@ == with_base_slots(
                old(self).erc20_balance_slots@,
                slots@,
            ),
            *final(self) == (EvmCache {
                erc20_balance_slots: final(self).erc20_balance_slots,
                ..*old(self)
            }),
    {
        let mut i: usize = 0;
        assert(slots@.take(0) =~= Seq::empty());
        while i < slots.len()
            invariant
                i <= slots.len(),
                self.wf(),
                self.erc20_balance_slots@ == with_base_slots(
                    old(self).erc20_balance_slots@,
                    slots@.take(i as int),
                ),
                *self == (EvmCache { erc20_balance_slots: self.erc20_balance_slots, ..*old(self) }),
            decreases slots.len() - i,
        {
            assert(slots@.take(i + 1).drop_last() =~= slots@.take(i as int));
            let (token, slot): (Address, U256) = slots[i];
            self.erc20_balance_slots.insert(
                token,
                TrackedMapping::new(token, slot, SlotLayout::SolidityMapping),
            );
            i = i + 1;
        }
        assert(slots@.take(i as int) =~= slots@);
    }

    /// Notes where tokens keep balances. Later entries replace earlier ones.
    pub fn seed_erc20_balance_layouts(&mut self, mappings: &[TrackedMapping])
        requires
            old(self).wf(),
        ensures
            final(self).wf(),
            final(self).erc20_balance_slots@ == with_mappings(
                old(self).erc20_balance_slots@,
                mappings@,
            ),
            *final(self) == (EvmCache {
                erc20_balance_slots: final(self).erc20_balance_slots,
                ..*old(self)
            }),
    {
        let mut i: usize = 0;
        assert(mappings@.take(0) =~= Seq::empty());
        while i < mappings.len()
            invariant
                i <= mappings.len(),
                self.wf(),
                self.erc20_balance_slots@ == with_mappings(
                    old(self).erc20_balance_slots@,
                    mappings@.take(i as int),
                ),
                *self == (EvmCache { erc20_balance_slots: self.erc20_balance_slots, ..*old(self) }),
            decreases mappings.len() - i,
        {
            assert(mappings@.take(i + 1).drop_last() =~= mappings@.take(i as int));
            let mapping: TrackedMapping = mappings[i];
            self.erc20_balance_slots.insert(mapping.contract, mapping);
            i = i + 1;
        }
        assert(mappings@.take(i as int) =~= mappings@);
    }

    /// Writes an entry of a mapping to the overlay, at the slot that its layout
    /// gives, and returns the slot. `fetched` is the contract as fetched, for a
    /// contract that the overlay does not hold.
    pub fn write_mapping_entry(
        &mut self,
        mapping: &TrackedMapping,
        key: U256,
        value: U256,
        fetched: Option<AccountInfo>,
    ) -> (r: Result<U256, CacheError>)
        requires
            old(self).wf(),
        ensures
            final(self).wf(),
            *final(self) == (EvmCache { layers: final(self).layers, ..*old(self) }),
            match with_entry(old(self).layers@, *mapping, key, value, fetched_model(fetched)) {
                Some(layers) => {
                    &&& r matches Ok(slot)
                    &&& Some(slot@) == mapping_slot(mapping.layout, mapping.base_slot@, key@)
                    &&& final(self).layers@ == layers
                },
                None => {
                    &&& r matches Err(error)
                    &&& is_underived_error(error, *mapping)
                    &&& *final(self) == *old(self)
                },
            },
    {
        match mapping.slot_for(key) {
            Some(slot) => {
                proof {
                    U256::lemma_spec_from(slot);
                }
                self.insert_storage_slot(mapping.contract, slot, value, fetched);
                Ok(slot)
            },
            None => Err(
                CacheError::StorageInsert {
                    address: mapping.contract,
                    slot: U256::zero(),
                    details: "layout Underived does not support single-key slot derivation"
                        .to_owned(),
                },
            ),
        }
    }

    /// Writes an entry of a mapping from addresses in the layout of Solidity to
    /// the overlay. `fetched` is the contract as fetched, for a contract that the
    /// overlay does not hold.
    pub fn insert_mapping_storage_slot(
        &mut self,
        contract: Address,
        slot: U256,
        slot_address: Address,
        value: U256,
        fetched: Option<AccountInfo>,
    )
        requires
            old(self).wf(),
        ensures
            final(self).wf(),
            *final(self) == (EvmCache { layers: final(self).layers, ..*old(self) }),
            Some(final(self).layers@) == with_entry(
                old(self).layers@,
                TrackedMapping {
                    contract,
                    base_slot: slot,
                    layout: SlotLayout::SolidityMapping,
                },
                word_of(slot_address),
                value,
                fetched_model(fetched),
            ),
    {
        let mapping: TrackedMapping = TrackedMapping::new(
            contract,
            slot,
            SlotLayout::SolidityMapping,
        );
        let key: U256 = slot_address.into_word();
        proof {
            U256::lemma_injective(key, word_of(slot_address));
        }
        let _ = self.write_mapping_entry(&mapping, key, value, fetched);
    }
}

/// An address as a word.
pub open spec fn word_of(address: Address) -> U256 {
    U256 { hi: address.hi as u128, lo: address.lo }
}

} // verus!
