//! Durable checkpoints: the cache's state and the position it was reached at, in
//! one checksummed frame.

use crate::cache::versioned;
use crate::cache::versioned::{frame, unframed};
use crate::foreign::{keccak256, keccak256_digest};
use crate::primitives::{
    be_bytes, be_value, lemma_be_bytes_round_trip, lemma_byte_base_values, pow_256, B256,
};
use vstd::prelude::*;

verus! {

/// The kind of a checkpoint file.
pub const CHECKPOINT_MAGIC: [u8; 8] = [0x45, 0x46, 0x43, 0x43, 0x4b, 0x50, 0x54, 0x00];

/// The version of a checkpoint file.
pub const CHECKPOINT_VERSION: u32 = 7;

/// The number of checksum bytes behind the frame.
pub const CHECKPOINT_CHECKSUM_BYTES: usize = 32;

/// The largest checkpoint a store accepts unless told otherwise.
pub const DEFAULT_MAX_DURABLE_CHECKPOINT_BYTES: u64 = 536870912;

/// How often a temporary file name is tried anew.
pub const MAX_TEMP_CREATE_ATTEMPTS: usize = 128;

/// Who a checkpoint belongs to.
#[derive(Debug, PartialEq, Eq)]
pub struct DurableCheckpointIdentity {
    /// The chain.
    pub chain_id: u64,
    /// The subscriber.
    pub subscriber_id: String,
    /// The set of handlers.
    pub handler_set_id: String,
}

/// What an identity holds.
#[verifier::ext_equal]
pub struct IdentityModel {
    /// The chain.
    pub chain_id: u64,
    /// The subscriber.
    pub subscriber_id: Seq<char>,
    /// The set of handlers.
    pub handler_set_id: Seq<char>,
}

impl View for DurableCheckpointIdentity {
    type V = IdentityModel;

    open spec fn view(&self) -> IdentityModel {
        IdentityModel {
            chain_id: self.chain_id,
            subscriber_id: self.subscriber_id@,
            handler_set_id: self.handler_set_id@,
        }
    }
}

impl Clone for DurableCheckpointIdentity {
    fn clone(&self) -> (r: Self)
        ensures
            r == *self,
    {
        DurableCheckpointIdentity {
            chain_id: self.chain_id,
            subscriber_id: self.subscriber_id.clone(),
            handler_set_id: self.handler_set_id.clone(),
        }
    }
}

impl DurableCheckpointIdentity {
    /// An identity.
    pub fn new(chain_id: u64, subscriber_id: String, handler_set_id: String) -> (r: Self)
        ensures
            r == (DurableCheckpointIdentity { chain_id, subscriber_id, handler_set_id }),
    {
        DurableCheckpointIdentity { chain_id, subscriber_id, handler_set_id }
    }

    /// Whether two identities are the same.
    pub fn matches_identity(&self, other: &Self) -> (r: bool)
        ensures
            r == (self@ == other@),
    {
        let same: bool = self.chain_id == other.chain_id && self.subscriber_id
            == other.subscriber_id && self.handler_set_id == other.handler_set_id;
        assert(same ==> self@ =~= other@);
        same
    }
}

/// The canonical block that a checkpoint commits.
#[derive(Clone, Copy, Debug, PartialEq, Eq, Structural)]
pub struct DurableCheckpointBlock {
    /// The height.
    pub number: u64,
    /// The hash.
    pub hash: B256,
    /// The parent's hash, if known.
    pub parent_hash: Option<B256>,
    /// The timestamp, if known.
    pub timestamp: Option<u64>,
}

impl DurableCheckpointBlock {
    /// A block by height and hash.
    pub fn new(number: u64, hash: B256) -> (r: Self)
        ensures
            r == (DurableCheckpointBlock { number, hash, parent_hash: None, timestamp: None }),
    {
        DurableCheckpointBlock { number, hash, parent_hash: None, timestamp: None }
    }

    /// With the parent's hash.
    pub fn with_parent_hash(self, parent_hash: B256) -> (r: Self)
        ensures
            r == (DurableCheckpointBlock { parent_hash: Some(parent_hash), ..self }),
    {
        DurableCheckpointBlock { parent_hash: Some(parent_hash), ..self }
    }

    /// With the timestamp.
    pub fn with_timestamp(self, timestamp: u64) -> (r: Self)
        ensures
            r == (DurableCheckpointBlock { timestamp: Some(timestamp), ..self }),
    {
        DurableCheckpointBlock { timestamp: Some(timestamp), ..self }
    }
}

/// What is committed along with the state.
#[derive(Debug, PartialEq, Eq)]
pub struct DurableCheckpointMetadata {
    /// Who the checkpoint belongs to.
    pub identity: DurableCheckpointIdentity,
    /// The last block whose effects are included.
    pub block: DurableCheckpointBlock,
    /// The last delivery included.
    pub delivery_token: Option<Vec<u8>>,
    /// The witness of that delivery.
    pub delivery_witness: Option<B256>,
    /// Where the subscriber goes on from.
    pub subscriber_checkpoint: Option<Vec<u8>>,
    /// What the runtime recovers from.
    pub runtime_checkpoint: Option<Vec<u8>>,
}

impl DurableCheckpointMetadata {
    /// Metadata with nothing optional in it.
    pub fn new(identity: DurableCheckpointIdentity, block: DurableCheckpointBlock) -> (r: Self)
        ensures
            r == (DurableCheckpointMetadata {
                identity,
                block,
                delivery_token: None,
                delivery_witness: None,
                subscriber_checkpoint: None,
                runtime_checkpoint: None,
            }),
    {
        DurableCheckpointMetadata {
            identity,
            block,
            delivery_token: None,
            delivery_witness: None,
            subscriber_checkpoint: None,
            runtime_checkpoint: None,
        }
    }

    /// With the last delivery included.
    pub fn with_delivery_token(self, delivery_token: Vec<u8>) -> (r: Self)
        ensures
            r == (DurableCheckpointMetadata { delivery_token: Some(delivery_token), ..self }),
    {
        DurableCheckpointMetadata { delivery_token: Some(delivery_token), ..self }
    }

    /// With the witness of that delivery.
    pub fn with_delivery_witness(self, delivery_witness: B256) -> (r: Self)
        ensures
            r == (DurableCheckpointMetadata { delivery_witness: Some(delivery_witness), ..self }),
    {
        DurableCheckpointMetadata { delivery_witness: Some(delivery_witness), ..self }
    }

    /// With where the subscriber goes on from.
    pub fn with_subscriber_checkpoint(self, checkpoint: Vec<u8>) -> (r: Self)
        ensures
            r == (DurableCheckpointMetadata { subscriber_checkpoint: Some(checkpoint), ..self }),
    {
        DurableCheckpointMetadata { subscriber_checkpoint: Some(checkpoint), ..self }
    }

    /// With what the runtime recovers from.
    pub fn with_runtime_checkpoint(self, checkpoint: Vec<u8>) -> (r: Self)
        ensures
            r == (DurableCheckpointMetadata { runtime_checkpoint: Some(checkpoint), ..self }),
    {
        DurableCheckpointMetadata { runtime_checkpoint: Some(checkpoint), ..self }
    }
}

/// Why a checkpoint could not be written, read or restored.
#[derive(Debug, PartialEq, Eq)]
pub enum DurableCheckpointError {
    /// The platform cannot replace a file atomically.
    AtomicReplaceUnsupported {
        /// The checkpoint file.
        path: String,
    },
    /// The payload could not be serialized.
    Encode {
        /// What the serializer reported.
        source: String,
    },
    /// The task that writes was lost.
    TaskJoin {
        /// What the runtime reported.
        source: String,
    },
    /// The generation counter cannot grow.
    GenerationExhausted,
    /// A newer write was asked for meanwhile.
    WriteSuperseded {
        /// The generation of this write.
        generation: u64,
        /// The newest generation.
        latest: u64,
    },
    /// The file could not be read.
    Read {
        /// The checkpoint file.
        path: String,
        /// What the file system reported.
        source: String,
    },
    /// The file is of another kind or version, or its payload is malformed.
    InvalidFormat {
        /// The checkpoint file.
        path: String,
    },
    /// The checksum is not that of the contents.
    ChecksumMismatch {
        /// The checkpoint file.
        path: String,
    },
    /// The checkpoint is larger than the store accepts.
    CheckpointTooLarge {
        /// The checkpoint file.
        path: String,
        /// Its size.
        bytes: u64,
        /// The largest size accepted.
        max_bytes: u64,
    },
    /// The size of the checkpoint cannot be counted.
    CheckpointSizeOverflow {
        /// The checkpoint file.
        path: String,
    },
    /// The directory could not be created.
    CreateDir {
        /// The directory.
        path: String,
        /// What the file system reported.
        source: String,
    },
    /// The temporary file could not be written.
    Write {
        /// The temporary file.
        path: String,
        /// What the file system reported.
        source: String,
    },
    /// Every temporary name was taken.
    TemporaryPathExhausted {
        /// The checkpoint file.
        path: String,
        /// How many names were tried.
        attempts: usize,
    },
    /// The temporary file could not be put in place.
    Rename {
        /// The temporary file.
        from: String,
        /// The checkpoint file.
        to: String,
        /// What the file system reported.
        source: String,
    },
    /// The directory could not be synced.
    SyncDirectory {
        /// The directory.
        path: String,
        /// What the file system reported.
        source: String,
    },
    /// The checkpoint belongs to someone else.
    IdentityMismatch {
        /// Who asked.
        expected: DurableCheckpointIdentity,
        /// Who it belongs to.
        actual: DurableCheckpointIdentity,
    },
    /// The cache is of another chain.
    CacheChainMismatch {
        /// The cache's chain.
        cache_chain_id: u64,
        /// The checkpoint's chain.
        checkpoint_chain_id: u64,
    },
}

/// The order in which writes to one file were asked for.
pub struct WriteCoordinator {
    /// The newest generation.
    pub latest_generation: u64,
}

impl WriteCoordinator {
    /// Once another write was asked for.
    pub open spec fn reserved(self) -> Self {
        WriteCoordinator { latest_generation: (self.latest_generation + 1) as u64 }
    }

    /// Whether a write of this generation may be carried out.
    pub open spec fn admits(self, generation: u64) -> bool {
        generation == self.latest_generation
    }

    /// No write yet.
    pub fn new() -> (r: Self)
        ensures
            r.latest_generation == 0,
    {
        WriteCoordinator { latest_generation: 0 }
    }

    /// The generation of a new write: one more than the newest.
    pub fn reserve_generation(&mut self) -> (r: Result<u64, DurableCheckpointError>)
        ensures
            old(self).latest_generation < u64::MAX ==> {
                &&& *final(self) == old(self).reserved()
                &&& r == Ok::<u64, DurableCheckpointError>(final(self).latest_generation)
            },
            old(self).latest_generation == u64::MAX ==> {
                &&& *final(self) == *old(self)
                &&& r == Err::<u64, DurableCheckpointError>(
                    DurableCheckpointError::GenerationExhausted,
                )
            },
    {
        if self.latest_generation == u64::MAX {
            return Err(DurableCheckpointError::GenerationExhausted);
        }
        self.latest_generation = self.latest_generation + 1;
        Ok(self.latest_generation)
    }

    /// Refuses a write that is not the newest.
    pub fn ensure_newest(&self, generation: u64) -> (r: Result<(), DurableCheckpointError>)
        ensures
            r == if self.admits(generation) {
                Ok::<(), DurableCheckpointError>(())
            } else {
                Err(
                    DurableCheckpointError::WriteSuperseded {
                        generation,
                        latest: self.latest_generation,
                    },
                )
            },
    {
        if generation != self.latest_generation {
            return Err(
                DurableCheckpointError::WriteSuperseded {
                    generation,
                    latest: self.latest_generation,
                },
            );
        }
        Ok(())
    }
}

/// Of two writes to one file only the one asked for last is carried out, in
/// whatever order they get there.
pub proof fn law_later_write_wins(before: WriteCoordinator)
    requires
        before.latest_generation + 2 <= u64::MAX,
    ensures
        ({
            let first = before.reserved();
            let second = first.reserved();
            &&& !second.admits(first.latest_generation)
            &&& second.admits(second.latest_generation)
        }),
{
}

/// The checksum of a frame: its digest, which is a word.
pub open spec fn checksum_of(encoded: Seq<u8>) -> nat {
    keccak256_digest(encoded) % pow_256()
}

/// The file of a checkpoint with its checksum.
pub open spec fn sealed(payload: Seq<u8>) -> Seq<u8> {
    let encoded = frame(CHECKPOINT_MAGIC@, CHECKPOINT_VERSION, payload);
    encoded + be_bytes(checksum_of(encoded), 32)
}

/// What a checkpoint file gives back.
pub enum OpenedModel {
    /// Its payload.
    Payload(Seq<u8>),
    /// It is of another kind or version.
    InvalidFormat,
    /// Its checksum is not that of its contents.
    ChecksumMismatch,
}

/// What a checkpoint file gives back, where its contents have a digest.
pub open spec fn opened_against(data: Seq<u8>, digest: nat) -> OpenedModel {
    if data.len() < CHECKPOINT_CHECKSUM_BYTES {
        OpenedModel::InvalidFormat
    } else {
        let start = data.len() - CHECKPOINT_CHECKSUM_BYTES;
        if digest != be_value(data.skip(start)) {
            OpenedModel::ChecksumMismatch
        } else {
            match unframed(data.take(start), CHECKPOINT_MAGIC@, CHECKPOINT_VERSION) {
                Some(payload) => OpenedModel::Payload(payload),
                None => OpenedModel::InvalidFormat,
            }
        }
    }
}

/// What a checkpoint file gives back.
pub open spec fn opened(data: Seq<u8>) -> OpenedModel {
    opened_against(data, checksum_of(data.take(data.len() - CHECKPOINT_CHECKSUM_BYTES)))
}

/// A checkpoint file of a certain path.
#[derive(Debug)]
pub struct DurableCheckpointStore {
    path: String,
    max_checkpoint_bytes: u64,
}

impl DurableCheckpointStore {
    /// The file.
    pub closed spec fn spec_path(self) -> Seq<char> {
        self.path@
    }

    /// The largest size accepted.
    pub closed spec fn spec_max_bytes(self) -> u64 {
        self.max_checkpoint_bytes
    }

    /// A store for a file.
    pub fn new(path: String) -> (r: Self)
        ensures
            r.spec_path() == path@,
            r.spec_max_bytes() == DEFAULT_MAX_DURABLE_CHECKPOINT_BYTES,
    {
        DurableCheckpointStore { path, max_checkpoint_bytes: DEFAULT_MAX_DURABLE_CHECKPOINT_BYTES }
    }

    /// With another largest size.
    pub fn with_max_checkpoint_bytes(self, max_checkpoint_bytes: u64) -> (r: Self)
        ensures
            r.spec_path() == self.spec_path(),
            r.spec_max_bytes() == max_checkpoint_bytes,
    {
        DurableCheckpointStore { path: self.path, max_checkpoint_bytes }
    }

    /// The largest size accepted.
    pub fn max_checkpoint_bytes(&self) -> (r: u64)
        ensures
            r == self.spec_max_bytes(),
    {
        self.max_checkpoint_bytes
    }

    /// The file.
    pub fn path(&self) -> (r: &str)
        ensures
            r@ == self.spec_path(),
    {
        self.path.as_str()
    }

    /// Whether two stores write the same file.
    pub fn same_file(&self, other: &Self) -> (r: bool)
        ensures
            r == (self.spec_path() == other.spec_path()),
    {
        self.path == other.path
    }

    /// The size of the file around a payload of so many bytes; an error where it
    /// cannot be counted or is larger than accepted.
    pub fn encoded_size(&self, payload_bytes: u64) -> (r: Result<u64, DurableCheckpointError>)
        ensures
            ({
                let size = payload_bytes + versioned::HEADER_BYTES + CHECKPOINT_CHECKSUM_BYTES;
                if size > u64::MAX {
                    r matches Err(DurableCheckpointError::CheckpointSizeOverflow { path }) && path@
                        == self.spec_path()
                } else if size > self.spec_max_bytes() {
                    r matches Err(
                        DurableCheckpointError::CheckpointTooLarge { path, bytes, max_bytes },
                    ) && path@ == self.spec_path() && bytes == size && max_bytes
                        == self.spec_max_bytes()
                } else {
                    r == Ok::<u64, DurableCheckpointError>(size as u64)
                }
            }),
    {
        let overhead: u64 = 44;
        match payload_bytes.checked_add(overhead) {
            None => Err(
                DurableCheckpointError::CheckpointSizeOverflow { path: self.path.clone() },
            ),
            Some(bytes) => if bytes > self.max_checkpoint_bytes {
                Err(
                    DurableCheckpointError::CheckpointTooLarge {
                        path: self.path.clone(),
                        bytes,
                        max_bytes: self.max_checkpoint_bytes,
                    },
                )
            } else {
                Ok(bytes)
            },
        }
    }

    /// Refuses a file that is larger than accepted.
    pub fn admit_size(&self, bytes: u64) -> (r: Result<(), DurableCheckpointError>)
        ensures
            if bytes > self.spec_max_bytes() {
                r matches Err(
                    DurableCheckpointError::CheckpointTooLarge { path, bytes: found, max_bytes },
                ) && path@ == self.spec_path() && found == bytes && max_bytes
                    == self.spec_max_bytes()
            } else {
                r is Ok
            },
    {
        if bytes > self.max_checkpoint_bytes {
            return Err(
                DurableCheckpointError::CheckpointTooLarge {
                    path: self.path.clone(),
                    bytes,
                    max_bytes: self.max_checkpoint_bytes,
                },
            );
        }
        Ok(())
    }

    /// How many bytes to read at most: one more than accepted shows that the
    /// file is too large.
    pub fn read_limit(&self) -> (r: u64)
        ensures
            r == if self.spec_max_bytes() == u64::MAX {
                u64::MAX as int
            } else {
                self.spec_max_bytes() + 1
            },
    {
        if self.max_checkpoint_bytes == u64::MAX {
            u64::MAX
        } else {
            self.max_checkpoint_bytes + 1
        }
    }

    /// The file around a payload.
    pub fn seal(payload: &[u8]) -> (r: Vec<u8>)
        ensures
            r@ == sealed(payload@),
            r@.len() == payload@.len() + versioned::HEADER_BYTES + CHECKPOINT_CHECKSUM_BYTES,
    {
        let mut data: Vec<u8> = versioned::encode(&CHECKPOINT_MAGIC, CHECKPOINT_VERSION, payload);
        let checksum: B256 = keccak256(data.as_slice());
        proof {
            lemma_checksum(checksum, data@);
        }
        checksum.append_to(&mut data);
        assert(data@ =~= sealed(payload@));
        data
    }

    /// Whether what came of a file is what it gives back.
    pub open spec fn gives(
        self,
        opened: OpenedModel,
        r: Result<Vec<u8>, DurableCheckpointError>,
    ) -> bool {
        match opened {
            OpenedModel::Payload(payload) => r matches Ok(bytes) && bytes@ == payload,
            OpenedModel::InvalidFormat => r matches Err(
                DurableCheckpointError::InvalidFormat { path },
            ) && path@ == self.spec_path(),
            OpenedModel::ChecksumMismatch => r matches Err(
                DurableCheckpointError::ChecksumMismatch { path },
            ) && path@ == self.spec_path(),
        }
    }

    /// Takes the payload out of a file whose contents, its last bytes aside, have
    /// a digest.
    pub fn open_against(&self, data: &[u8], digest: B256) -> (r: Result<
        Vec<u8>,
        DurableCheckpointError,
    >)
        ensures
            self.gives(opened_against(data@, digest@), r),
    {
        let len: usize = data.len();
        if len < CHECKPOINT_CHECKSUM_BYTES {
            return Err(DurableCheckpointError::InvalidFormat { path: self.path.clone() });
        }
        let start: usize = len - CHECKPOINT_CHECKSUM_BYTES;
        let encoded: &[u8] = vstd::slice::slice_subrange(data, 0, start);
        assert(encoded@ =~= data@.take(start as int));
        let expected: B256 = B256::from_slice(data, start);
        assert(data@.subrange(start as int, start as int + 32) =~= data@.skip(start as int));
        if digest != expected {
            proof {
                if digest@ == expected@ {
                    B256::lemma_injective(digest, expected);
                }
            }
            return Err(DurableCheckpointError::ChecksumMismatch { path: self.path.clone() });
        }
        match versioned::decode(encoded, &CHECKPOINT_MAGIC, CHECKPOINT_VERSION) {
            Some(payload) => Ok(payload),
            None => Err(DurableCheckpointError::InvalidFormat { path: self.path.clone() }),
        }
    }

    /// Takes the payload out of a file that was read, after checking its size
    /// and its checksum.
    pub fn open(&self, data: &[u8]) -> (r: Result<Vec<u8>, DurableCheckpointError>)
        ensures
            if data@.len() > self.spec_max_bytes() {
                r matches Err(
                    DurableCheckpointError::CheckpointTooLarge { path, bytes, max_bytes },
                ) && path@ == self.spec_path() && bytes == data@.len() && max_bytes
                    == self.spec_max_bytes()
            } else {
                self.gives(opened(data@), r)
            },
    {
        let len: usize = data.len();
        if len as u64 > self.max_checkpoint_bytes {
            return Err(
                DurableCheckpointError::CheckpointTooLarge {
                    path: self.path.clone(),
                    bytes: len as u64,
                    max_bytes: self.max_checkpoint_bytes,
                },
            );
        }
        if len < CHECKPOINT_CHECKSUM_BYTES {
            return Err(DurableCheckpointError::InvalidFormat { path: self.path.clone() });
        }
        let start: usize = len - CHECKPOINT_CHECKSUM_BYTES;
        let encoded: &[u8] = vstd::slice::slice_subrange(data, 0, start);
        assert(encoded@ =~= data@.take(start as int));
        let digest: B256 = keccak256(encoded);
        proof {
            lemma_checksum(digest, encoded@);
        }
        self.open_against(data, digest)
    }
}

/// The digest of a frame is its checksum.
proof fn lemma_checksum(digest: B256, encoded: Seq<u8>)
    requires
        digest@ == keccak256_digest(encoded),
    ensures
        digest@ == checksum_of(encoded),
        be_bytes(digest@, 32).len() == 32,
{
    lemma_byte_base_values();
    lemma_be_bytes_round_trip(digest@, 32);
}

/// A sealed checkpoint opens to the payload that was sealed.
pub proof fn law_seal_then_open(payload: Seq<u8>)
    ensures
        opened(sealed(payload)) == OpenedModel::Payload(payload),
{
    let encoded = frame(CHECKPOINT_MAGIC@, CHECKPOINT_VERSION, payload);
    let checksum = checksum_of(encoded);
    lemma_byte_base_values();
    lemma_be_bytes_round_trip(checksum, 32);
    let data = sealed(payload);
    let start = data.len() - CHECKPOINT_CHECKSUM_BYTES;
    assert(data.take(start) =~= encoded);
    assert(data.skip(start) =~= be_bytes(checksum, 32));
    versioned::law_frame_round_trip(CHECKPOINT_MAGIC@, CHECKPOINT_VERSION, payload);
}

/// A file whose checksum does not fit its contents never opens.
pub proof fn law_corruption_is_detected(data: Seq<u8>)
    requires
        data.len() >= CHECKPOINT_CHECKSUM_BYTES,
        checksum_of(data.take(data.len() - CHECKPOINT_CHECKSUM_BYTES)) != be_value(
            data.skip(data.len() - CHECKPOINT_CHECKSUM_BYTES),
        ),
    ensures
        opened(data) is ChecksumMismatch,
{
}

} // verus!
