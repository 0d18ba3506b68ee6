//! Calls into other crates, behind contracts that say what they return.

use crate::access_list::AccessList;
use crate::bytes::Bytes;
use crate::primitives::{be_bytes, be_value, pow_256, Address, B256, U256};
use vstd::prelude::*;

verus! {

/// The Keccak-256 digest of `data`, as a number.
pub uninterp spec fn keccak256_digest(data: Seq<u8>) -> nat;

/// Calls `alloy_primitives::keccak256`. The digest is a function of the bytes
/// alone.
#[verifier::external_body]
pub(crate) fn keccak256(data: &[u8]) -> (r: B256)
    ensures
        r@ == keccak256_digest(data@),
{
    B256::from_slice(alloy_primitives::keccak256(data).as_slice(), 0)
}

/// One call of an `aggregate3` dispatch.
#[derive(Debug, PartialEq, Eq)]
pub struct Call3 {
    /// The contract to call.
    pub target: Address,
    /// Whether the dispatch goes on when the call fails.
    pub allow_failure: bool,
    /// The calldata.
    pub call_data: Bytes,
}

impl View for Call3 {
    type V = (nat, bool, Seq<u8>);

    open spec fn view(&self) -> (nat, bool, Seq<u8>) {
        (self.target@, self.allow_failure, self.call_data@)
    }
}

/// The result of one call of an `aggregate3` dispatch.
#[derive(Debug, PartialEq, Eq)]
pub struct SubcallResult {
    /// Whether the call succeeded.
    pub success: bool,
    /// What it returned.
    pub return_data: Bytes,
}

impl View for SubcallResult {
    type V = (bool, Seq<u8>);

    open spec fn view(&self) -> (bool, Seq<u8>) {
        (self.success, self.return_data@)
    }
}

/// The ABI encoding of the arguments of `aggregate3((address,bool,bytes)[])`.
pub uninterp spec fn aggregate3_arguments(calls: Seq<(nat, bool, Seq<u8>)>) -> Seq<u8>;

/// Calls `alloy_sol_types::SolValue::abi_encode_sequence` on the list of
/// calls, as the one argument of `aggregate3`. The encoding is a function of
/// the calls alone.
#[verifier::external_body]
pub(crate) fn encode_aggregate3_arguments(calls: &Vec<Call3>) -> (r: Vec<u8>)
    ensures
        r@ == aggregate3_arguments(calls@.map_values(|c: Call3| c@)),
{
    let list: Vec<(alloy_primitives::Address, bool, alloy_primitives::Bytes)> = calls.iter().map(
        |c|
            (
                alloy_primitives::Address::from_slice(&c.target.to_vec()),
                c.allow_failure,
                alloy_primitives::Bytes::copy_from_slice(c.call_data.as_slice()),
            ),
    ).collect();
    alloy_sol_types::SolValue::abi_encode_sequence(&(list,))
}

/// What the return data of `aggregate3` decodes to, or what the decoder
/// reports.
pub uninterp spec fn aggregate3_results(
    response: Seq<u8>,
) -> Result<Seq<(bool, Seq<u8>)>, Seq<char>>;

/// The plain values of decoded results.
pub open spec fn results_view(
    decoded: Result<Vec<SubcallResult>, String>,
) -> Result<Seq<(bool, Seq<u8>)>, Seq<char>> {
    match decoded {
        Ok(list) => Ok(list@.map_values(|s: SubcallResult| s@)),
        Err(details) => Err(details@),
    }
}

/// Calls `alloy_sol_types::SolValue::abi_decode_sequence` for the one return
/// value `(bool,bytes)[]` of `aggregate3`. What comes out is a function of the
/// bytes alone.
#[verifier::external_body]
pub(crate) fn decode_aggregate3_results(response: &[u8]) -> (r: Result<Vec<SubcallResult>, String>)
    ensures
        results_view(r) == aggregate3_results(response@),
{
    match <(
        Vec<(bool, alloy_primitives::Bytes)>,
    ) as alloy_sol_types::SolValue>::abi_decode_sequence(response) {
        Ok((list,)) => Ok(
            list.into_iter().map(
                |(success, data)|
                    SubcallResult { success, return_data: Bytes::from_vec(data.to_vec()) },
            ).collect(),
        ),
        Err(error) => Err(error.to_string()),
    }
}

/// Calls the `*` operator of `alloy_primitives::U256`, which multiplies modulo
/// two to the 256.
#[verifier::external_body]
pub(crate) fn wrapping_product(a: U256, b: U256) -> (r: U256)
    ensures
        r@ == (a@ * b@) % pow_256(),
{
    let mut left: Vec<u8> = Vec::new();
    let mut right: Vec<u8> = Vec::new();
    a.append_to(&mut left);
    b.append_to(&mut right);
    let product = alloy_primitives::U256::from_be_slice(&left)
        * alloy_primitives::U256::from_be_slice(&right);
    U256::from_be_slice(&product.to_be_bytes::<32>(), 0)
}

/// The RLP encoding of an access list.
pub uninterp spec fn access_list_rlp(items: Seq<(Address, Seq<B256>)>) -> Seq<u8>;

/// Calls `alloy_rlp::encode` on the list as an
/// `alloy_eips::eip2930::AccessList`. The encoding is a function of the list
/// alone.
#[verifier::external_body]
pub(crate) fn encode_access_list(list: &AccessList) -> (r: Vec<u8>)
    ensures
        r@ == access_list_rlp(list@),
{
    let items = list.items.iter().map(
        |item|
            alloy_eips::eip2930::AccessListItem {
                address: alloy_primitives::Address::from_slice(&item.address.to_vec()),
                storage_keys: item.storage_keys.iter().map(
                    |key| alloy_primitives::B256::from_slice(&key.to_vec()),
                ).collect(),
            },
    ).collect();
    alloy_rlp::encode(alloy_eips::eip2930::AccessList(items))
}

/// The ABI encoding of one `bytes` argument: a word with the place where the
/// argument starts, a word with its length, and its bytes, filled up with zeros to
/// whole words.
pub open spec fn bytes_argument(data: Seq<u8>) -> Seq<u8> {
    let fill: int = (32 - data.len() % 32) % 32;
    be_bytes(32, 32) + be_bytes(data.len(), 32) + data + Seq::new(fill as nat, |i: int| 0u8)
}

/// Calls `alloy_sol_types::SolValue::abi_encode_sequence` on one argument of
/// type `bytes`: the head word 32, the length, and the padded bytes.
#[verifier::external_body]
pub(crate) fn encode_bytes_argument(data: &[u8]) -> (r: Vec<u8>)
    ensures
        r@ == bytes_argument(data@),
{
    let argument = alloy_primitives::Bytes::copy_from_slice(data);
    alloy_sol_types::SolValue::abi_encode_sequence(&(argument,))
}

/// The `uint256` that return data starts with, if it holds a word.
pub open spec fn uint256_result(data: Seq<u8>) -> Option<nat> {
    if data.len() >= 32 {
        Some(be_value(data.take(32)))
    } else {
        None
    }
}

/// Calls `alloy_sol_types::SolValue::abi_decode_sequence` for one return value
/// of type `uint256`: the first word. Where there is none, the error is told as
/// its `Debug` text, `Overrun`.
#[verifier::external_body]
pub(crate) fn decode_uint256(data: &[u8]) -> (r: Result<U256, String>)
    ensures
        match r {
            Ok(value) => uint256_result(data@) == Some(value@),
            Err(details) => uint256_result(data@) is None && details@ == "Overrun"@,
        },
{
    match <(alloy_primitives::U256,) as alloy_sol_types::SolValue>::abi_decode_sequence(data) {
        Ok((value,)) => Ok(U256::from_be_slice(&value.to_be_bytes::<32>(), 0)),
        Err(error) => Err(format!("{error:?}")),
    }
}

/// Calls `alloy_sol_types::SolType::abi_decode_sequence` for one return value of
/// type `uint8`: the last byte of the first word, whatever stands before it. Where
/// there is no word, the error is told as its `Debug` text, `Overrun`.
#[verifier::external_body]
pub(crate) fn decode_uint8(data: &[u8]) -> (r: Result<u8, String>)
    ensures
        match r {
            Ok(value) => data@.len() >= 32 && value == data@[31],
            Err(details) => data@.len() < 32 && details@ == "Overrun"@,
        },
{
    match <(
        alloy_sol_types::sol_data::Uint<8>,
    ) as alloy_sol_types::SolType>::abi_decode_sequence(data) {
        Ok((value,)) => Ok(value),
        Err(error) => Err(format!("{error:?}")),
    }
}

/// The hash of no code.
pub open spec fn spec_keccak_empty() -> B256 {
    B256 { hi: 0xc5d2460186f7233c927e7db2dcc703c0, lo: 0xe500b653ca82273b7bfad8045d85a470 }
}

/// The hash of no code.
#[verifier::when_used_as_spec(spec_keccak_empty)]
pub fn keccak_empty() -> (r: B256)
    ensures
        r == spec_keccak_empty(),
{
    B256 { hi: 0xc5d2460186f7233c927e7db2dcc703c0, lo: 0xe500b653ca82273b7bfad8045d85a470 }
}

/// Whether `code` can be loaded as runtime code: a delegation designator, by
/// its first two bytes, has 23 bytes and version zero.
pub open spec fn loadable_code(code: Seq<u8>) -> bool {
    code.len() >= 2 && code[0] == 0xef && code[1] == 0x01 ==> code.len() == 23 && code[2] == 0
}

/// The hash that runtime code is known by.
pub open spec fn code_hash_of(code: Seq<u8>) -> nat {
    if code.len() == 0 {
        spec_keccak_empty()@
    } else {
        keccak256_digest(code)
    }
}

/// Calls `revm::state::Bytecode::new_raw` and `hash_slow` on the result.
/// `new_raw` panics on a malformed delegation designator; `hash_slow` is the
/// hash of no code for empty code, else the Keccak-256 digest of the bytes.
#[verifier::external_body]
pub(crate) fn bytecode_hash(code: &[u8]) -> (r: B256)
    requires
        loadable_code(code@),
    ensures
        r@ == code_hash_of(code@),
{
    let bytes = alloy_primitives::Bytes::copy_from_slice(code);
    B256::from_slice(revm::state::Bytecode::new_raw(bytes).hash_slow().as_slice(), 0)
}

/// The standard library's clock reading.
#[verifier::external_type_specification]
#[verifier::external_body]
pub struct ExSystemTime(std::time::SystemTime);

/// Whole seconds from the epoch to a clock reading; nothing where the reading is
/// before the epoch.
pub uninterp spec fn epoch_seconds(time: std::time::SystemTime) -> Option<u64>;

/// Calls `SystemTime::duration_since` with the epoch. What comes back depends on
/// the clock reading alone.
#[verifier::external_body]
pub(crate) fn seconds_since_epoch(time: std::time::SystemTime) -> (r: Option<u64>)
    ensures
        r == epoch_seconds(time),
{
    match time.duration_since(std::time::UNIX_EPOCH) {
        Ok(elapsed) => Some(elapsed.as_secs()),
        Err(_) => None,
    }
}

/// The name of a hard fork, by its number in the order of activation.
pub open spec fn hardfork_text(id: u8) -> Option<Seq<char>> {
    if id == 0 {
        Some("Frontier"@)
    } else if id == 1 {
        Some("Frontier Thawing"@)
    } else if id == 2 {
        Some("Homestead"@)
    } else if id == 3 {
        Some("DAO Fork"@)
    } else if id == 4 {
        Some("Tangerine"@)
    } else if id == 5 {
        Some("Spurious"@)
    } else if id == 6 {
        Some("Byzantium"@)
    } else if id == 7 {
        Some("Constantinople"@)
    } else if id == 8 {
        Some("Petersburg"@)
    } else if id == 9 {
        Some("Istanbul"@)
    } else if id == 10 {
        Some("MuirGlacier"@)
    } else if id == 11 {
        Some("Berlin"@)
    } else if id == 12 {
        Some("London"@)
    } else if id == 13 {
        Some("Arrow Glacier"@)
    } else if id == 14 {
        Some("Gray Glacier"@)
    } else if id == 15 {
        Some("Merge"@)
    } else if id == 16 {
        Some("Shanghai"@)
    } else if id == 17 {
        Some("Cancun"@)
    } else if id == 18 {
        Some("Prague"@)
    } else if id == 19 {
        Some("Osaka"@)
    } else if id == 20 {
        Some("Amsterdam"@)
    } else {
        None
    }
}

/// Calls `revm::primitives::hardfork::SpecId::try_from_u8` and turns the result
/// into its name.
#[verifier::external_body]
pub(crate) fn hardfork_name(id: u8) -> (r: Option<String>)
    ensures
        (match r {
            Some(name) => Some(name@),
            None => None,
        }) == hardfork_text(id),
{
    match revm::primitives::hardfork::SpecId::try_from_u8(id) {
        Some(spec) => Some(String::from(<&'static str>::from(spec))),
        None => None,
    }
}

/// An account in a payload: its address, its balance, its nonce and the hash of
/// its code.
pub type AccountBytes = (Vec<u8>, Vec<u8>, u64, Vec<u8>);

/// What an account in a payload holds.
pub type AccountRow = (Seq<u8>, Seq<u8>, u64, Seq<u8>);

/// The storage of an account in a payload: its address, and its slots with their
/// values.
pub type StorageBytes = (Vec<u8>, Vec<(Vec<u8>, Vec<u8>)>);

/// What the storage of an account in a payload holds.
pub type StorageRow = (Seq<u8>, Seq<(Seq<u8>, Seq<u8>)>);

/// An observation in a payload: the address, the slot, the last value, the counts
/// of observations and changes, and when it was last checked and changed.
pub type ObservationBytes = (Vec<u8>, Vec<u8>, Vec<u8>, u32, u32, u64, u64);

/// What an observation in a payload holds.
pub type ObservationRow = (Seq<u8>, Seq<u8>, Seq<u8>, u32, u32, u64, u64);

/// The code of an account in a payload: the address, and the code as text.
pub type CodeText = (Vec<u8>, String);

/// What the code of an account in a payload holds.
pub type CodeRow = (Seq<u8>, Seq<char>);

/// What accounts in a payload hold.
pub open spec fn account_rows(rows: Seq<AccountBytes>) -> Seq<AccountRow> {
    rows.map_values(|row: AccountBytes| (row.0@, row.1@, row.2, row.3@))
}

/// What slots in a payload hold.
pub open spec fn pair_rows(pairs: Seq<(Vec<u8>, Vec<u8>)>) -> Seq<(Seq<u8>, Seq<u8>)> {
    pairs.map_values(|pair: (Vec<u8>, Vec<u8>)| (pair.0@, pair.1@))
}

/// What storage in a payload holds.
pub open spec fn storage_rows(rows: Seq<StorageBytes>) -> Seq<StorageRow> {
    rows.map_values(|row: StorageBytes| (row.0@, pair_rows(row.1@)))
}

/// What observations in a payload hold.
pub open spec fn observation_rows(rows: Seq<ObservationBytes>) -> Seq<ObservationRow> {
    rows.map_values(
        |row: ObservationBytes| (row.0@, row.1@, row.2@, row.3, row.4, row.5, row.6),
    )
}

/// What code in a payload holds.
pub open spec fn code_rows(rows: Seq<CodeText>) -> Seq<CodeRow> {
    rows.map_values(|row: CodeText| (row.0@, row.1@))
}

/// The bytes of accounts and storage.
pub uninterp spec fn state_payload(accounts: Seq<AccountRow>, storage: Seq<StorageRow>) -> Seq<u8>;

/// The accounts and storage that bytes hold, if they hold any.
pub uninterp spec fn state_in(payload: Seq<u8>) -> Option<(Seq<AccountRow>, Seq<StorageRow>)>;

/// Calls `bincode::serialize` on accounts and storage. The bytes are a function of
/// the rows alone, and `bincode::deserialize` reads the rows back from them. There
/// is no error: integers, byte strings and lists of them tell their lengths, no
/// limit is set, and the bytes go to a vector.
#[verifier::external_body]
pub(crate) fn encode_state(accounts: &Vec<AccountBytes>, storage: &Vec<StorageBytes>) -> (r: Result<
    Vec<u8>,
    String,
>)
    ensures
        match r {
            Ok(bytes) => bytes@ == state_payload(account_rows(accounts@), storage_rows(storage@))
                && state_in(bytes@) == Some((account_rows(accounts@), storage_rows(storage@))),
            Err(_) => false,
        },
{
    bincode::serialize(&(accounts, storage)).map_err(|error| error.to_string())
}

/// Calls `bincode::deserialize` for accounts and storage. What comes out, an error
/// being none, is a function of the bytes alone.
#[verifier::external_body]
pub(crate) fn decode_state(payload: &[u8]) -> (r: Option<(Vec<AccountBytes>, Vec<StorageBytes>)>)
    ensures
        match r {
            Some(rows) => state_in(payload@) == Some(
                (account_rows(rows.0@), storage_rows(rows.1@)),
            ),
            None => state_in(payload@) is None,
        },
{
    bincode::deserialize(payload).ok()
}

/// The bytes of observations.
pub uninterp spec fn observations_payload(rows: Seq<ObservationRow>) -> Seq<u8>;

/// The observations that bytes hold, if they hold any.
pub uninterp spec fn observations_in(payload: Seq<u8>) -> Option<Seq<ObservationRow>>;

/// Calls `bincode::serialize` on observations. The bytes are a function of the
/// rows alone, and `bincode::deserialize` reads the rows back from them. There is
/// no error: integers, byte strings and lists of them tell their lengths, no limit
/// is set, and the bytes go to a vector.
#[verifier::external_body]
pub(crate) fn encode_observations(rows: &Vec<ObservationBytes>) -> (r: Result<Vec<u8>, String>)
    ensures
        match r {
            Ok(bytes) => bytes@ == observations_payload(observation_rows(rows@))
                && observations_in(bytes@) == Some(observation_rows(rows@)),
            Err(_) => false,
        },
{
    bincode::serialize(rows).map_err(|error| error.to_string())
}

/// Calls `bincode::deserialize` for observations. What comes out, an error being
/// none, is a function of the bytes alone.
#[verifier::external_body]
pub(crate) fn decode_observations(payload: &[u8]) -> (r: Option<Vec<ObservationBytes>>)
    ensures
        match r {
            Some(rows) => observations_in(payload@) == Some(observation_rows(rows@)),
            None => observations_in(payload@) is None,
        },
{
    bincode::deserialize(payload).ok()
}

/// The bytes of code.
pub uninterp spec fn codes_payload(rows: Seq<CodeRow>) -> Seq<u8>;

/// The code that bytes hold, if they hold any.
pub uninterp spec fn codes_in(payload: Seq<u8>) -> Option<Seq<CodeRow>>;

/// Calls `bincode::serialize` on code. The bytes are a function of the rows alone,
/// and `bincode::deserialize` reads the rows back from them. There is no error:
/// byte strings, texts and lists of them tell their lengths, no limit is set, and
/// the bytes go to a vector.
#[verifier::external_body]
pub(crate) fn encode_codes(rows: &Vec<CodeText>) -> (r: Result<Vec<u8>, String>)
    ensures
        match r {
            Ok(bytes) => bytes@ == codes_payload(code_rows(rows@)) && codes_in(bytes@) == Some(
                code_rows(rows@),
            ),
            Err(_) => false,
        },
{
    bincode::serialize(rows).map_err(|error| error.to_string())
}

/// Calls `bincode::deserialize` for code. What comes out, an error being none, is a
/// function of the bytes alone.
#[verifier::external_body]
pub(crate) fn decode_codes(payload: &[u8]) -> (r: Option<Vec<CodeText>>)
    ensures
        match r {
            Some(rows) => codes_in(payload@) == Some(code_rows(rows@)),
            None => codes_in(payload@) is None,
        },
{
    bincode::deserialize(payload).ok()
}

/// The decimals of a token in a payload: its address, and the decimals.
pub type DecimalsBytes = (Vec<u8>, u8);

/// What the decimals of a token in a payload hold.
pub type DecimalsRow = (Seq<u8>, u8);

/// What decimals in a payload hold.
pub open spec fn decimals_rows(rows: Seq<DecimalsBytes>) -> Seq<DecimalsRow> {
    rows.map_values(|row: DecimalsBytes| (row.0@, row.1))
}

/// The bytes of decimals.
pub uninterp spec fn decimals_payload(rows: Seq<DecimalsRow>) -> Seq<u8>;

/// The decimals that bytes hold, if they hold any.
pub uninterp spec fn decimals_in(payload: Seq<u8>) -> Option<Seq<DecimalsRow>>;

/// Calls `bincode::serialize` on decimals. The bytes are a function of the rows
/// alone, and `bincode::deserialize` reads the rows back from them. There is no
/// error: integers, byte strings and lists of them tell their lengths, no limit is
/// set, and the bytes go to a vector.
#[verifier::external_body]
pub(crate) fn encode_decimals(rows: &Vec<DecimalsBytes>) -> (r: Result<Vec<u8>, String>)
    ensures
        match r {
            Ok(bytes) => bytes@ == decimals_payload(decimals_rows(rows@)) && decimals_in(bytes@)
                == Some(decimals_rows(rows@)),
            Err(_) => false,
        },
{
    bincode::serialize(rows).map_err(|error| error.to_string())
}

/// Calls `bincode::deserialize` for decimals. What comes out, an error being none,
/// is a function of the bytes alone.
#[verifier::external_body]
pub(crate) fn decode_decimals(payload: &[u8]) -> (r: Option<Vec<DecimalsBytes>>)
    ensures
        match r {
            Some(rows) => decimals_in(payload@) == Some(decimals_rows(rows@)),
            None => decimals_in(payload@) is None,
        },
{
    bincode::deserialize(payload).ok()
}

} // verus!
