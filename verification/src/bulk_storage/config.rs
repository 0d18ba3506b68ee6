//! Tuning of the bulk path, and the programs that it injects.

use crate::bytes::Bytes;
use crate::primitives::Address;
use vstd::prelude::*;

verus! {

/// The storage extractor: reads the 32-byte slot keys of its calldata and
/// returns the values side by side. Needs `PUSH0`.
pub const STORAGE_EXTRACTOR_CODE: [u8; 23] = [
    0x5f, 0x5b, 0x80, 0x36, 0x14, 0x60, 0x13, 0x57, 0x80, 0x35, 0x54, 0x81, 0x52, 0x60, 0x20, 0x01,
    0x60, 0x01, 0x56, 0x5b, 0x36, 0x5f, 0xf3,
];

/// The storage extractor without `PUSH0`, for chains before Shanghai.
pub const STORAGE_EXTRACTOR_CODE_PRE_SHANGHAI: [u8; 25] = [
    0x60, 0x00, 0x5b, 0x80, 0x36, 0x14, 0x60, 0x14, 0x57, 0x80, 0x35, 0x54, 0x81, 0x52, 0x60, 0x20,
    0x01, 0x60, 0x02, 0x56, 0x5b, 0x36, 0x60, 0x00, 0xf3,
];

/// The account-fields extractor: reads left-padded addresses and returns
/// balance and code hash of each.
pub const ACCOUNT_FIELDS_EXTRACTOR_CODE: [u8; 39] = [
    0x5f, 0x5b, 0x80, 0x36, 0x14, 0x60, 0x20, 0x57, 0x80, 0x35, 0x80, 0x31, 0x82, 0x60, 0x01, 0x1b,
    0x52, 0x3f, 0x81, 0x60, 0x01, 0x1b, 0x60, 0x20, 0x01, 0x52, 0x60, 0x20, 0x01, 0x60, 0x01, 0x56,
    0x5b, 0x36, 0x60, 0x01, 0x1b, 0x5f, 0xf3,
];

/// The block-context extractor: returns number, timestamp, base fee, coinbase,
/// randomness, gas limit and chain id, one word each.
pub const BLOCK_CONTEXT_EXTRACTOR_CODE: [u8; 31] = [
    0x43, 0x5f, 0x52, 0x42, 0x60, 0x20, 0x52, 0x48, 0x60, 0x40, 0x52, 0x41, 0x60, 0x60, 0x52, 0x44,
    0x60, 0x80, 0x52, 0x45, 0x60, 0xa0, 0x52, 0x46, 0x60, 0xc0, 0x52, 0x60, 0xe0, 0x5f, 0xf3,
];

/// The address of the Multicall3 dispatcher, as specifications name it.
pub open spec fn spec_multicall3_address() -> Address {
    Address { hi: 0xcA11bde0, lo: 0x5977b3631167028862bE2a173976CA11 }
}

/// The address of the Multicall3 dispatcher.
#[verifier::when_used_as_spec(spec_multicall3_address)]
pub fn multicall3_address() -> (r: Address)
    ensures
        r == spec_multicall3_address(),
{
    Address { hi: 0xcA11bde0, lo: 0x5977b3631167028862bE2a173976CA11 }
}

/// How planned calls are shipped to the provider.
#[derive(Clone, Copy, Debug, PartialEq, Eq, Structural)]
pub enum CallDispatch {
    /// One `eth_call` per planned call.
    PerCall,
    /// Many calls as the transactions of one `eth_callMany` bundle.
    CallMany,
}

impl Default for CallDispatch {
    fn default() -> (r: Self)
        ensures
            r == CallDispatch::PerCall,
    {
        CallDispatch::PerCall
    }
}

/// Tuning knobs of the bulk path.
#[derive(Clone, Copy, Debug, PartialEq, Eq, Structural)]
pub struct BulkCallConfig {
    /// Most slots in one `eth_call`, over all its targets.
    pub max_slots_per_call: usize,
    /// Most targets in one multicall.
    pub max_targets_per_call: usize,
    /// Most calls in flight at once.
    pub max_concurrent_calls: usize,
    /// Requests with fewer slots go to the fallback fetcher.
    pub point_read_threshold: usize,
    /// Use the extractor without `PUSH0`.
    pub pre_shanghai_extractor: bool,
    /// How calls are shipped.
    pub dispatch: CallDispatch,
    /// Most slots in one `eth_callMany` request.
    pub max_slots_per_request: usize,
}

impl Default for BulkCallConfig {
    fn default() -> (r: Self)
        ensures
            r == (BulkCallConfig {
                max_slots_per_call: 10_000,
                max_targets_per_call: 250,
                max_concurrent_calls: 4,
                point_read_threshold: 2,
                pre_shanghai_extractor: false,
                dispatch: CallDispatch::PerCall,
                max_slots_per_request: 25_000,
            }),
    {
        BulkCallConfig {
            max_slots_per_call: 10_000,
            max_targets_per_call: 250,
            max_concurrent_calls: 4,
            point_read_threshold: 2,
            pre_shanghai_extractor: false,
            dispatch: CallDispatch::PerCall,
            max_slots_per_request: 25_000,
        }
    }
}

/// At least one.
pub open spec fn at_least_one(n: usize) -> usize {
    if n == 0 {
        1
    } else {
        n
    }
}

impl BulkCallConfig {
    /// What [`normalized`](Self::normalized) returns: budgets of at least one,
    /// everything else unchanged.
    pub open spec fn spec_normalized(self) -> Self {
        BulkCallConfig {
            max_slots_per_call: at_least_one(self.max_slots_per_call),
            max_targets_per_call: at_least_one(self.max_targets_per_call),
            max_concurrent_calls: at_least_one(self.max_concurrent_calls),
            point_read_threshold: self.point_read_threshold,
            pre_shanghai_extractor: self.pre_shanghai_extractor,
            dispatch: self.dispatch,
            max_slots_per_request: at_least_one(self.max_slots_per_request),
        }
    }

    /// The configuration with budgets of at least one.
    pub fn normalized(self) -> (r: Self)
        ensures
            r == self.spec_normalized(),
    {
        BulkCallConfig {
            max_slots_per_call: raise_to_one(self.max_slots_per_call),
            max_targets_per_call: raise_to_one(self.max_targets_per_call),
            max_concurrent_calls: raise_to_one(self.max_concurrent_calls),
            max_slots_per_request: raise_to_one(self.max_slots_per_request),
            ..self
        }
    }

    /// The extractor that the configuration selects.
    pub open spec fn spec_extractor(self) -> Seq<u8> {
        if self.pre_shanghai_extractor {
            STORAGE_EXTRACTOR_CODE_PRE_SHANGHAI@
        } else {
            STORAGE_EXTRACTOR_CODE@
        }
    }

    /// The extractor that the configuration selects.
    pub fn extractor(&self) -> (r: Bytes)
        ensures
            r@ == self.spec_extractor(),
    {
        if self.pre_shanghai_extractor {
            Bytes::from_slice(STORAGE_EXTRACTOR_CODE_PRE_SHANGHAI.as_slice())
        } else {
            Bytes::from_slice(STORAGE_EXTRACTOR_CODE.as_slice())
        }
    }
}

/// At least one.
pub fn raise_to_one(n: usize) -> (r: usize)
    ensures
        r == at_least_one(n),
{
    if n == 0 {
        1
    } else {
        n
    }
}

} // verus!
