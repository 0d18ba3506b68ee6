//! How a cache fetches, simulates and persists.

use crate::access_list::AccessList;
use crate::bulk_storage::config::{at_least_one, raise_to_one, BulkCallConfig, CallDispatch};
use crate::primitives::U256;
use vstd::prelude::*;

verus! {

/// Preset tuning of point reads.
#[derive(Clone, Copy, Debug, PartialEq, Eq, Structural)]
pub enum CacheSpeedMode {
    /// Largest batches, most requests in flight.
    Fast,
    /// Moderate batches.
    Normal,
    /// Conservative batches. The default.
    Slow,
    /// Smallest batches, one request in flight.
    XSlow,
}

impl Default for CacheSpeedMode {
    fn default() -> (r: Self)
        ensures
            r == CacheSpeedMode::Slow,
    {
        CacheSpeedMode::Slow
    }
}

/// Tuning of point reads.
#[derive(Clone, Copy, Debug, PartialEq, Eq, Structural)]
pub struct StorageBatchConfig {
    /// Slots in one batch request.
    pub slots_per_batch: usize,
    /// Batch requests in flight at once.
    pub max_concurrent_batches: usize,
}

impl StorageBatchConfig {
    /// A configuration, with zero values raised to one.
    pub fn new(slots_per_batch: usize, max_concurrent_batches: usize) -> (r: Self)
        ensures
            r == (StorageBatchConfig { slots_per_batch, max_concurrent_batches }).spec_normalized(),
    {
        StorageBatchConfig { slots_per_batch, max_concurrent_batches }.normalized()
    }

    /// The configuration with values of at least one.
    pub open spec fn spec_normalized(self) -> Self {
        StorageBatchConfig {
            slots_per_batch: at_least_one(self.slots_per_batch),
            max_concurrent_batches: at_least_one(self.max_concurrent_batches),
        }
    }

    /// The configuration with values of at least one.
    pub fn normalized(self) -> (r: Self)
        ensures
            r == self.spec_normalized(),
    {
        StorageBatchConfig {
            slots_per_batch: raise_to_one(self.slots_per_batch),
            max_concurrent_batches: raise_to_one(self.max_concurrent_batches),
        }
    }

    /// The configuration of a preset.
    pub open spec fn spec_from_mode(mode: CacheSpeedMode) -> Self {
        match mode {
            CacheSpeedMode::Fast => StorageBatchConfig {
                slots_per_batch: 150,
                max_concurrent_batches: 8,
            },
            CacheSpeedMode::Normal => StorageBatchConfig {
                slots_per_batch: 100,
                max_concurrent_batches: 6,
            },
            CacheSpeedMode::Slow => StorageBatchConfig {
                slots_per_batch: 75,
                max_concurrent_batches: 4,
            },
            CacheSpeedMode::XSlow => StorageBatchConfig {
                slots_per_batch: 25,
                max_concurrent_batches: 1,
            },
        }
    }
}

impl From<CacheSpeedMode> for StorageBatchConfig {
    fn from(mode: CacheSpeedMode) -> (r: Self) {
        match mode {
            CacheSpeedMode::Fast => StorageBatchConfig::new(150, 8),
            CacheSpeedMode::Normal => StorageBatchConfig::new(100, 6),
            CacheSpeedMode::Slow => StorageBatchConfig::new(75, 4),
            CacheSpeedMode::XSlow => StorageBatchConfig::new(25, 1),
        }
    }
}

impl vstd::std_specs::convert::FromSpecImpl<CacheSpeedMode> for StorageBatchConfig {
    open spec fn obeys_from_spec() -> bool {
        true
    }

    open spec fn from_spec(mode: CacheSpeedMode) -> Self {
        StorageBatchConfig::spec_from_mode(mode)
    }
}

impl Default for StorageBatchConfig {
    fn default() -> (r: Self)
        ensures
            r == StorageBatchConfig::spec_from_mode(CacheSpeedMode::Slow),
    {
        StorageBatchConfig::from(CacheSpeedMode::default())
    }
}

/// How a cache loads slots.
#[derive(Clone, Copy, Debug, PartialEq, Eq, Structural)]
pub enum StorageFetchStrategy {
    /// Bulk extraction, repaired by point reads. The default.
    BulkCall(BulkCallConfig),
    /// Point reads only.
    PointRead,
}

impl Default for StorageFetchStrategy {
    fn default() -> (r: Self)
        ensures
            r == StorageFetchStrategy::BulkCall(
                BulkCallConfig {
                    max_slots_per_call: 10_000,
                    max_targets_per_call: 250,
                    max_concurrent_calls: 4,
                    point_read_threshold: 2,
                    pre_shanghai_extractor: false,
                    dispatch: CallDispatch::PerCall,
                    max_slots_per_request: 25_000,
                },
            ),
    {
        StorageFetchStrategy::BulkCall(BulkCallConfig::default())
    }
}

/// Bytes of working memory to allocate ahead for a simulation.
pub const DEFAULT_SHARED_MEMORY_CAPACITY: usize = 65_536;

impl StorageFetchStrategy {
    /// Whether a cache loads slots in this way without being told to.
    pub fn is_default(&self) -> (r: bool)
        ensures
            r == (*self == StorageFetchStrategy::BulkCall(
                BulkCallConfig {
                    max_slots_per_call: 10_000,
                    max_targets_per_call: 250,
                    max_concurrent_calls: 4,
                    point_read_threshold: 2,
                    pre_shanghai_extractor: false,
                    dispatch: CallDispatch::PerCall,
                    max_slots_per_request: 25_000,
                },
            )),
    {
        *self == StorageFetchStrategy::default()
    }
}

/// How much working memory to allocate ahead.
#[derive(Clone, Copy, Debug, PartialEq, Eq, Structural)]
pub enum SharedMemoryCapacity {
    /// Exactly so many bytes.
    Fixed(usize),
    /// As many as the loaded state suggests.
    Auto,
}

impl Default for SharedMemoryCapacity {
    fn default() -> (r: Self)
        ensures
            r == SharedMemoryCapacity::Fixed(DEFAULT_SHARED_MEMORY_CAPACITY),
    {
        SharedMemoryCapacity::Fixed(DEFAULT_SHARED_MEMORY_CAPACITY)
    }
}

impl SharedMemoryCapacity {
    /// The least that `Auto` resolves to.
    pub const MIN_AUTO: usize = DEFAULT_SHARED_MEMORY_CAPACITY;

    /// The most that `Auto` resolves to.
    pub const MAX_AUTO: usize = 4_194_304;

    /// Bytes per loaded slot.
    pub const AUTO_BYTES_PER_SLOT: usize = 16;

    /// The bytes to allocate, where so many slots are loaded: sixteen per slot
    /// within the limits, or exactly what is fixed.
    pub fn resolve(self, loaded_slots: usize) -> (r: usize)
        ensures
            r == match self {
                SharedMemoryCapacity::Fixed(bytes) => bytes as int,
                SharedMemoryCapacity::Auto => {
                    let wanted = loaded_slots * SharedMemoryCapacity::AUTO_BYTES_PER_SLOT;
                    if wanted < SharedMemoryCapacity::MIN_AUTO {
                        SharedMemoryCapacity::MIN_AUTO as int
                    } else if wanted > SharedMemoryCapacity::MAX_AUTO {
                        SharedMemoryCapacity::MAX_AUTO as int
                    } else {
                        wanted
                    }
                },
            },
    {
        match self {
            SharedMemoryCapacity::Fixed(bytes) => bytes,
            SharedMemoryCapacity::Auto => {
                let wanted: usize = match loaded_slots.checked_mul(
                    SharedMemoryCapacity::AUTO_BYTES_PER_SLOT,
                ) {
                    Some(bytes) => bytes,
                    None => usize::MAX,
                };
                if wanted < SharedMemoryCapacity::MIN_AUTO {
                    SharedMemoryCapacity::MIN_AUTO
                } else if wanted > SharedMemoryCapacity::MAX_AUTO {
                    SharedMemoryCapacity::MAX_AUTO
                } else {
                    wanted
                }
            },
        }
    }
}

/// What to do where a code override's target is not known.
#[derive(Clone, Copy, Debug, PartialEq, Eq, Structural)]
pub enum MissingTargetBehavior {
    /// Report an error.
    Error,
    /// Create an account with the code.
    Create,
}

/// Overrides of a simulated transaction.
#[derive(Debug, PartialEq, Eq)]
pub struct TxConfig {
    /// The value sent.
    pub value: U256,
    /// The gas limit, if set.
    pub gas_limit: Option<u64>,
    /// The gas price, if set.
    pub gas_price: Option<u128>,
    /// The nonce, if set.
    pub nonce: Option<u64>,
    /// The access list, if set.
    pub access_list: Option<AccessList>,
}

impl Default for TxConfig {
    fn default() -> (r: Self)
        ensures
            r.value@ == 0,
            r.gas_limit is None,
            r.gas_price is None,
            r.nonce is None,
            r.access_list is None,
    {
        TxConfig {
            value: U256::zero(),
            gas_limit: None,
            gas_price: None,
            nonce: None,
            access_list: None,
        }
    }
}

/// How a simulated call ended.
#[derive(Debug, PartialEq, Eq)]
pub enum SimStatus {
    /// It returned.
    Success,
    /// It reverted.
    Revert,
    /// It halted.
    Halt {
        /// Why.
        reason: String,
    },
}

} // verus!
