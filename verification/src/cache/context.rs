//! The block that simulations run in.

use crate::block::BlockId;
use crate::foreign::{epoch_seconds, hardfork_name, hardfork_text, seconds_since_epoch};
use crate::primitives::{Address, B256, U256};
use crate::text::{
    ascii_lower, ascii_upper, is_ascii_text, lemma_same_letters, lowercase_of, same_letters,
    to_lowercase, to_uppercase, uppercase_of,
};
use std::time::SystemTime;
use vstd::prelude::*;

verus! {

/// An EVM hard fork, by its number in the order of activation.
#[derive(Clone, Copy, Debug, PartialEq, Eq, Structural)]
pub struct EvmSpec {
    /// The number.
    pub id: u8,
}

impl EvmSpec {
    /// The number of the Cancun fork.
    pub const CANCUN_ID: u8 = 17;

    /// The Cancun fork, as specifications name it.
    pub open spec fn spec_cancun() -> Self {
        EvmSpec { id: EvmSpec::CANCUN_ID }
    }

    /// The Cancun fork.
    #[verifier::when_used_as_spec(spec_cancun)]
    pub fn cancun() -> (r: Self)
        ensures
            r == EvmSpec::spec_cancun(),
    {
        EvmSpec { id: EvmSpec::CANCUN_ID }
    }
}

/// Whether text names a hard fork: it is the name, but for the case of letters.
pub open spec fn names_hardfork(text: Seq<char>, id: u8) -> bool {
    match hardfork_text(id) {
        Some(name) => lowercase_of(text) == lowercase_of(name) || uppercase_of(text)
            == uppercase_of(name),
        None => false,
    }
}

/// Whether a hard fork is the first that text names; it is Cancun where the text
/// names none.
pub open spec fn is_named_hardfork(text: Seq<char>, spec: EvmSpec) -> bool {
    if exists|id: u8| names_hardfork(text, id) {
        names_hardfork(text, spec.id) && forall|id: u8|
            id < spec.id ==> !names_hardfork(text, id)
    } else {
        spec == EvmSpec::spec_cancun()
    }
}

/// Whether text is the name of a hard fork, but for the case of ASCII letters.
pub open spec fn spells_hardfork(text: Seq<char>, id: u8) -> bool {
    hardfork_text(id) matches Some(name) && same_letters(text, name)
}

/// Whether a hard fork is the first that text spells; it is Cancun where the text
/// spells none.
pub open spec fn is_spelled_hardfork(text: Seq<char>, spec: EvmSpec) -> bool {
    if exists|id: u8| spells_hardfork(text, id) {
        spells_hardfork(text, spec.id) && forall|id: u8|
            id < spec.id ==> !spells_hardfork(text, id)
    } else {
        spec == EvmSpec::spec_cancun()
    }
}

/// The names of hard forks are ASCII text.
proof fn lemma_names_are_ascii(id: u8)
    ensures
        hardfork_text(id) matches Some(name) ==> is_ascii_text(name),
{
    reveal_strlit("Frontier");
    reveal_strlit("Frontier Thawing");
    reveal_strlit("Homestead");
    reveal_strlit("DAO Fork");
    reveal_strlit("Tangerine");
    reveal_strlit("Spurious");
    reveal_strlit("Byzantium");
    reveal_strlit("Constantinople");
    reveal_strlit("Petersburg");
    reveal_strlit("Istanbul");
    reveal_strlit("MuirGlacier");
    reveal_strlit("Berlin");
    reveal_strlit("London");
    reveal_strlit("Arrow Glacier");
    reveal_strlit("Gray Glacier");
    reveal_strlit("Merge");
    reveal_strlit("Shanghai");
    reveal_strlit("Cancun");
    reveal_strlit("Prague");
    reveal_strlit("Osaka");
    reveal_strlit("Amsterdam");
}

/// The hard fork that text names, whatever the case of its letters; Cancun where
/// it names none.
pub fn parse_evm_spec(spec: &str) -> (r: EvmSpec)
    ensures
        is_named_hardfork(spec@, r),
        is_ascii_text(spec@) ==> is_spelled_hardfork(spec@, r),
{
    let lower: String = to_lowercase(spec);
    let upper: String = to_uppercase(spec);
    let mut id: u8 = 0;
    while id < u8::MAX
        invariant
            lower@ == lowercase_of(spec@),
            upper@ == uppercase_of(spec@),
            is_ascii_text(spec@) ==> lower@ == spec@.map_values(|c: char| ascii_lower(c)),
            is_ascii_text(spec@) ==> upper@ == spec@.map_values(|c: char| ascii_upper(c)),
            forall|other: u8| other < id ==> !names_hardfork(spec@, other),
            is_ascii_text(spec@) ==> forall|other: u8|
                other < id ==> !spells_hardfork(spec@, other),
        decreases u8::MAX - id,
    {
        if let Some(name) = hardfork_name(id) {
            let name_lower: String = to_lowercase(name.as_str());
            let name_upper: String = to_uppercase(name.as_str());
            proof {
                lemma_names_are_ascii(id);
                if is_ascii_text(spec@) {
                    lemma_same_letters(spec@, name@);
                }
            }
            if lower == name_lower || upper == name_upper {
                assert(names_hardfork(spec@, id));
                assert(is_ascii_text(spec@) ==> spells_hardfork(spec@, id));
                return EvmSpec { id };
            }
        }
        id = id + 1;
    }
    EvmSpec::cancun()
}

/// What a block header says about the block's environment.
#[derive(Clone, Copy, Debug, PartialEq, Eq, Structural)]
pub struct BlockHeader {
    /// The height.
    pub number: u64,
    /// The base fee, on a chain that has one.
    pub base_fee_per_gas: Option<u64>,
    /// The beneficiary.
    pub beneficiary: Address,
    /// The mix hash, if the header carries one.
    pub mix_hash: Option<B256>,
    /// The gas limit.
    pub gas_limit: u64,
    /// The timestamp.
    pub timestamp: u64,
}

/// Why a block context was refused.
#[derive(Debug, PartialEq, Eq)]
pub enum BlockContextError {
    /// The header lacks a required field.
    MissingField {
        /// The field.
        field: &'static str,
    },
    /// The header could not be fetched.
    FetchFailed(String),
}

/// Which fields a header must carry.
#[derive(Clone, Copy, Debug, PartialEq, Eq, Structural)]
pub struct BlockContextRequirements {
    /// The height.
    pub require_number: bool,
    /// The base fee.
    pub require_basefee: bool,
    /// The beneficiary.
    pub require_coinbase: bool,
    /// The mix hash.
    pub require_prevrandao: bool,
    /// The gas limit.
    pub require_gas_limit: bool,
}

impl Default for BlockContextRequirements {
    fn default() -> (r: Self)
        ensures
            r == BlockContextRequirements::spec_lenient(),
    {
        BlockContextRequirements::lenient()
    }
}

impl BlockContextRequirements {
    /// Every field, as specifications name it.
    pub open spec fn spec_strict() -> Self {
        BlockContextRequirements {
            require_number: true,
            require_basefee: true,
            require_coinbase: true,
            require_prevrandao: true,
            require_gas_limit: true,
        }
    }

    /// No field, as specifications name it.
    pub open spec fn spec_lenient() -> Self {
        BlockContextRequirements {
            require_number: false,
            require_basefee: false,
            require_coinbase: false,
            require_prevrandao: false,
            require_gas_limit: false,
        }
    }

    /// Every field.
    #[verifier::when_used_as_spec(spec_strict)]
    pub fn strict() -> (r: Self)
        ensures
            r == BlockContextRequirements::spec_strict(),
    {
        BlockContextRequirements {
            require_number: true,
            require_basefee: true,
            require_coinbase: true,
            require_prevrandao: true,
            require_gas_limit: true,
        }
    }

    /// No field.
    #[verifier::when_used_as_spec(spec_lenient)]
    pub fn lenient() -> (r: Self)
        ensures
            r == BlockContextRequirements::spec_lenient(),
    {
        BlockContextRequirements {
            require_number: false,
            require_basefee: false,
            require_coinbase: false,
            require_prevrandao: false,
            require_gas_limit: false,
        }
    }

    /// Whether a header carries every required field. Height, beneficiary and
    /// gas limit are never absent.
    pub open spec fn met_by(self, header: BlockHeader) -> bool {
        &&& self.require_basefee ==> header.base_fee_per_gas is Some
        &&& self.require_prevrandao ==> header.mix_hash is Some
    }

    /// Checks that a header carries every required field, the base fee first.
    pub fn validate_header(&self, header: &BlockHeader) -> (r: Result<(), BlockContextError>)
        ensures
            r is Ok <==> self.met_by(*header),
            r matches Err(e) ==> e matches BlockContextError::MissingField { field } && field@
                == if self.require_basefee && header.base_fee_per_gas is None {
                "basefee"@
            } else {
                "prevrandao"@
            },
    {
        if self.require_basefee && header.base_fee_per_gas.is_none() {
            return Err(BlockContextError::MissingField { field: "basefee" });
        }
        if self.require_prevrandao && header.mix_hash.is_none() {
            return Err(BlockContextError::MissingField { field: "prevrandao" });
        }
        Ok(())
    }

    /// Checks a header that was to be fetched. Where nothing is required
    /// nothing is checked.
    pub fn validate_fetched(&self, fetched: Result<BlockHeader, String>) -> (r: Result<
        (),
        BlockContextError,
    >)
        ensures
            *self == BlockContextRequirements::spec_lenient() ==> r is Ok,
            *self != BlockContextRequirements::spec_lenient() ==> match fetched {
                Err(details) => r == Err::<(), BlockContextError>(
                    BlockContextError::FetchFailed(details),
                ),
                Ok(header) => {
                    &&& r is Ok <==> self.met_by(header)
                    &&& r matches Err(e) ==> e matches BlockContextError::MissingField { field }
                        && field@ == if self.require_basefee && header.base_fee_per_gas is None {
                        "basefee"@
                    } else {
                        "prevrandao"@
                    }
                },
            },
    {
        if *self == BlockContextRequirements::lenient() {
            return Ok(());
        }
        match fetched {
            Ok(header) => self.validate_header(&header),
            Err(details) => Err(BlockContextError::FetchFailed(details)),
        }
    }
}

/// Where a block environment came from.
#[derive(Clone, Copy, Debug, PartialEq, Eq, Structural)]
pub enum BlockEnvSource {
    /// From the header of this block, whose hash was checked.
    VerifiedHash {
        /// The height.
        number: u64,
        /// The hash.
        hash: B256,
    },
}

/// The block that simulations run in.
#[derive(Clone, Copy, Debug, PartialEq, Eq, Structural)]
pub struct BlockContext {
    /// The block that fetches read at.
    pub block: BlockId,
    /// The height that contracts see.
    pub block_number: Option<u64>,
    /// The base fee that contracts see.
    pub basefee: Option<u64>,
    /// The beneficiary that contracts see.
    pub coinbase: Option<Address>,
    /// The random value that contracts see.
    pub prevrandao: Option<B256>,
    /// The gas limit that contracts see.
    pub block_gas_limit: Option<u64>,
    /// The timestamp that contracts see.
    pub timestamp: Option<u64>,
    /// Where the environment came from.
    pub source: Option<BlockEnvSource>,
    /// The chain.
    pub chain_id: u64,
    /// The hard fork.
    pub spec: EvmSpec,
}

impl BlockContext {
    /// Pinned to `block`, nothing else known.
    pub open spec fn spec_pinned(block: BlockId, chain_id: u64, spec: EvmSpec) -> Self {
        BlockContext {
            block,
            block_number: None,
            basefee: None,
            coinbase: None,
            prevrandao: None,
            block_gas_limit: None,
            timestamp: None,
            source: None,
            chain_id,
            spec,
        }
    }

    /// Pinned to `block`, nothing else known.
    pub fn pinned(block: BlockId, chain_id: u64, spec: EvmSpec) -> (r: Self)
        ensures
            r == BlockContext::spec_pinned(block, chain_id, spec),
    {
        BlockContext {
            block,
            block_number: None,
            basefee: None,
            coinbase: None,
            prevrandao: None,
            block_gas_limit: None,
            timestamp: None,
            source: None,
            chain_id,
            spec,
        }
    }

    /// With what the header of a block says, at its height.
    pub open spec fn spec_at_header(self, header: BlockHeader) -> Self {
        BlockContext {
            block: BlockId::Number(crate::block::BlockNumberOrTag::Number(header.number)),
            block_number: Some(header.number),
            basefee: header.base_fee_per_gas,
            coinbase: Some(header.beneficiary),
            prevrandao: header.mix_hash,
            block_gas_limit: Some(header.gas_limit),
            timestamp: Some(header.timestamp),
            source: self.source,
            chain_id: self.chain_id,
            spec: self.spec,
        }
    }

    /// With what the header of a block says, at its height.
    pub fn at_header(self, header: &BlockHeader) -> (r: Self)
        ensures
            r == self.spec_at_header(*header),
    {
        BlockContext {
            block: BlockId::number(header.number),
            block_number: Some(header.number),
            basefee: header.base_fee_per_gas,
            coinbase: Some(header.beneficiary),
            prevrandao: header.mix_hash,
            block_gas_limit: Some(header.gas_limit),
            timestamp: Some(header.timestamp),
            source: self.source,
            chain_id: self.chain_id,
            spec: self.spec,
        }
    }

    /// Pinned to another block. The height is the pin's, where it names one; the
    /// base fee is unknown where the pin changed or names no height.
    pub open spec fn spec_at_block(self, block: BlockId) -> Self {
        BlockContext {
            block,
            block_number: block.spec_concrete_number(),
            basefee: if self.block != block || block.spec_concrete_number() is None {
                None
            } else {
                self.basefee
            },
            ..self
        }
    }

    /// Pinned to another block.
    pub fn at_block(self, block: BlockId) -> (r: Self)
        ensures
            r == self.spec_at_block(block),
    {
        let number: Option<u64> = block.concrete_number();
        let basefee: Option<u64> = if self.block != block || number.is_none() {
            None
        } else {
            self.basefee
        };
        BlockContext { block, block_number: number, basefee, ..self }
    }

    /// With another base fee: the given one, or the largest that fits.
    pub fn with_basefee(self, basefee: U256) -> (r: Self)
        ensures
            r.basefee == Some(
                if basefee@ > u64::MAX {
                    u64::MAX
                } else {
                    basefee@ as u64
                },
            ),
            r == (BlockContext { basefee: r.basefee, ..self }),
    {
        BlockContext { basefee: Some(basefee.saturating_to_u64()), ..self }
    }
}

/// Whole seconds from the epoch to `time`; a time before the epoch counts as
/// zero.
pub fn unix_timestamp_secs_saturating(time: SystemTime) -> (r: u64)
    ensures
        r == match epoch_seconds(time) {
            Some(seconds) => seconds,
            None => 0,
        },
{
    match seconds_since_epoch(time) {
        Some(seconds) => seconds,
        None => 0,
    }
}

/// The timestamp that contracts see: the one set, or that of the clock.
pub fn effective_timestamp(context: &BlockContext, clock: SystemTime) -> (r: u64)
    ensures
        r == match (context.timestamp, epoch_seconds(clock)) {
            (Some(timestamp), _) => timestamp,
            (None, Some(seconds)) => seconds,
            (None, None) => 0,
        },
{
    match context.timestamp {
        Some(timestamp) => timestamp,
        None => unix_timestamp_secs_saturating(clock),
    }
}

/// What contracts see of the block.
#[derive(Clone, Copy, Debug, PartialEq, Eq, Structural)]
pub struct BlockEnvironment {
    /// The height.
    pub number: U256,
    /// The timestamp.
    pub timestamp: U256,
    /// The base fee.
    pub basefee: u64,
    /// The beneficiary.
    pub beneficiary: Address,
    /// The random value, if there is one.
    pub prevrandao: Option<B256>,
    /// The gas limit.
    pub gas_limit: u64,
}

/// A count as a word.
pub open spec fn counted(count: u64) -> U256 {
    U256 { hi: 0, lo: count as u128 }
}

impl BlockContext {
    /// What contracts see of the block: what is set, the clock where no timestamp
    /// is, and the defaults of the machine elsewhere.
    pub fn environment(&self, defaults: BlockEnvironment, clock: SystemTime) -> (r: BlockEnvironment)
        ensures
            r == (BlockEnvironment {
                number: match self.block_number {
                    Some(number) => counted(number),
                    None => defaults.number,
                },
                timestamp: counted(
                    match (self.timestamp, epoch_seconds(clock)) {
                        (Some(timestamp), _) => timestamp,
                        (None, Some(seconds)) => seconds,
                        (None, None) => 0,
                    },
                ),
                basefee: match self.basefee {
                    Some(basefee) => basefee,
                    None => defaults.basefee,
                },
                beneficiary: match self.coinbase {
                    Some(coinbase) => coinbase,
                    None => defaults.beneficiary,
                },
                prevrandao: match self.prevrandao {
                    Some(prevrandao) => Some(prevrandao),
                    None => defaults.prevrandao,
                },
                gas_limit: match self.block_gas_limit {
                    Some(gas_limit) => gas_limit,
                    None => defaults.gas_limit,
                },
            }),
    {
        let timestamp: u64 = effective_timestamp(self, clock);
        BlockEnvironment {
            number: match self.block_number {
                Some(number) => counted_word(number),
                None => defaults.number,
            },
            timestamp: counted_word(timestamp),
            basefee: match self.basefee {
                Some(basefee) => basefee,
                None => defaults.basefee,
            },
            beneficiary: match self.coinbase {
                Some(coinbase) => coinbase,
                None => defaults.beneficiary,
            },
            prevrandao: match self.prevrandao {
                Some(prevrandao) => Some(prevrandao),
                None => defaults.prevrandao,
            },
            gas_limit: match self.block_gas_limit {
                Some(gas_limit) => gas_limit,
                None => defaults.gas_limit,
            },
        }
    }
}

/// A count as a word.
fn counted_word(count: u64) -> (r: U256)
    ensures
        r == counted(count),
{
    let word: U256 = U256::from_u64(count);
    proof {
        U256::lemma_injective(word, counted(count));
    }
    word
}

} // verus!
