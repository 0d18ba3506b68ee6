//! What can go wrong, as plain data.

use crate::execution::ExecutionResult;
use crate::primitives::{Address, B256, U256};
use vstd::prelude::*;

verus! {

/// Why no runtime can drive a provider call.
#[derive(Debug, PartialEq, Eq)]
pub enum RuntimeError {
    /// The current runtime runs on one thread and cannot block in place.
    CurrentThreadRuntime,
    /// There is no current runtime.
    MissingRuntime {
        /// What the runtime reported.
        details: String,
    },
}

impl Clone for RuntimeError {
    fn clone(&self) -> (r: Self)
        ensures
            r == *self,
    {
        match self {
            RuntimeError::CurrentThreadRuntime => RuntimeError::CurrentThreadRuntime,
            RuntimeError::MissingRuntime { details } => RuntimeError::MissingRuntime {
                details: details.clone(),
            },
        }
    }
}

/// Why a storage value could not be fetched.
#[derive(Debug, PartialEq, Eq)]
pub enum StorageFetchError {
    /// A provider call failed.
    Provider {
        /// The RPC method.
        method: String,
        /// What the provider reported.
        details: String,
    },
    /// No runtime could drive the call.
    Runtime(RuntimeError),
    /// A request could not be serialized.
    Serialization {
        /// What the serializer reported.
        details: String,
    },
    /// A whole batch could not be sent.
    BatchSend {
        /// What the transport reported.
        details: String,
    },
    /// An `aggregate3` response held another number of results than calls.
    ResultCount {
        /// The number of results.
        returned: usize,
        /// The number of calls.
        expected: usize,
    },
    /// An `aggregate3` response could not be decoded.
    ResponseDecode {
        /// What the decoder reported.
        details: String,
    },
    /// The extractor failed at one target of a multicall.
    SubcallFailed,
    /// A storage program failed inside a multicall.
    ProgramFailed,
    /// The extractor at one target of a multicall returned another number of
    /// bytes than the slots take.
    SubcallLength {
        /// The target.
        target: Address,
        /// The number of bytes returned.
        returned: usize,
        /// The number of words expected.
        expected_words: usize,
    },
    /// A direct extractor call returned another number of bytes than the slots
    /// take.
    ExtractorLength {
        /// The target.
        target: Address,
        /// The number of bytes returned.
        returned: usize,
        /// The number of words expected.
        expected_words: usize,
    },
    /// An `eth_callMany` response held another number of entries than calls.
    CallManyCount {
        /// The number of entries.
        returned: usize,
        /// The number of calls.
        expected: usize,
    },
    /// One transaction of an `eth_callMany` bundle failed.
    CallManyFailed {
        /// What the provider reported, if anything.
        reported: Option<String>,
    },
    /// The account-fields extractor returned another number of bytes than the
    /// accounts take.
    AccountFieldsLength {
        /// The number of bytes returned.
        returned: usize,
        /// The number of accounts asked for.
        accounts: usize,
    },
    /// The block-context extractor did not return seven words.
    BlockContextLength {
        /// The number of bytes returned.
        returned: usize,
    },
    /// No batch fetcher is installed.
    NoBatchFetcher,
    /// Any other cause, as the fetcher reported it.
    Custom {
        /// The report.
        details: String,
    },
}

impl Clone for StorageFetchError {
    fn clone(&self) -> (r: Self)
        ensures
            r == *self,
    {
        match self {
            StorageFetchError::Provider { method, details } => StorageFetchError::Provider {
                method: method.clone(),
                details: details.clone(),
            },
            StorageFetchError::Runtime(error) => StorageFetchError::Runtime(error.clone()),
            StorageFetchError::Serialization { details } => StorageFetchError::Serialization {
                details: details.clone(),
            },
            StorageFetchError::BatchSend { details } => StorageFetchError::BatchSend {
                details: details.clone(),
            },
            StorageFetchError::ResultCount { returned, expected } => {
                StorageFetchError::ResultCount { returned: *returned, expected: *expected }
            },
            StorageFetchError::ResponseDecode { details } => StorageFetchError::ResponseDecode {
                details: details.clone(),
            },
            StorageFetchError::SubcallFailed => StorageFetchError::SubcallFailed,
            StorageFetchError::ProgramFailed => StorageFetchError::ProgramFailed,
            StorageFetchError::SubcallLength { target, returned, expected_words } => {
                StorageFetchError::SubcallLength {
                    target: *target,
                    returned: *returned,
                    expected_words: *expected_words,
                }
            },
            StorageFetchError::ExtractorLength { target, returned, expected_words } => {
                StorageFetchError::ExtractorLength {
                    target: *target,
                    returned: *returned,
                    expected_words: *expected_words,
                }
            },
            StorageFetchError::CallManyCount { returned, expected } => {
                StorageFetchError::CallManyCount { returned: *returned, expected: *expected }
            },
            StorageFetchError::CallManyFailed { reported } => match reported {
                Some(text) => StorageFetchError::CallManyFailed { reported: Some(text.clone()) },
                None => StorageFetchError::CallManyFailed { reported: None },
            },
            StorageFetchError::AccountFieldsLength { returned, accounts } => {
                StorageFetchError::AccountFieldsLength { returned: *returned, accounts: *accounts }
            },
            StorageFetchError::BlockContextLength { returned } => {
                StorageFetchError::BlockContextLength { returned: *returned }
            },
            StorageFetchError::NoBatchFetcher => StorageFetchError::NoBatchFetcher,
            StorageFetchError::Custom { details } => StorageFetchError::Custom {
                details: details.clone(),
            },
        }
    }
}

/// Whose runtime code is meant.
#[derive(Clone, Copy, Debug, PartialEq, Eq, Structural)]
pub enum CodeRole {
    /// The account that code is copied from.
    Source,
    /// The account that code is copied to.
    Target,
}

/// Why an operation of the cache failed.
#[derive(Debug, PartialEq, Eq)]
pub enum CacheError {
    /// There is nothing to fetch slots with.
    MissingStorageBatchFetcher,
    /// There is nothing to fetch account fields with.
    MissingAccountFieldsFetcher,
    /// Not one of the slots could be fetched.
    ReconcileFetchFailed {
        /// How many were asked for.
        requested: usize,
    },
    /// The code given is empty.
    CodeSeedEmpty {
        /// The account.
        address: Address,
    },
    /// The code given is not the code that was fetched.
    CodeSeedConflict {
        /// The account.
        address: Address,
        /// The hash of the code that was fetched.
        cached: B256,
        /// The hash of the code given.
        seeded: B256,
    },
    /// The source account's code is not known.
    MissingSourceBytecode {
        /// The account.
        source: Address,
    },
    /// An account has no runtime code.
    MissingRuntimeCode {
        /// Whose code is meant.
        role: CodeRole,
        /// The account.
        address: Address,
    },
    /// The target account does not exist.
    MissingTargetAccount {
        /// The account.
        target: Address,
    },
    /// The target account could not be fetched.
    TargetAccountFetch {
        /// The account.
        target: Address,
        /// What was reported.
        details: String,
    },
    /// A slot could not be written.
    StorageInsert {
        /// The account.
        address: Address,
        /// The slot.
        slot: U256,
        /// What was reported.
        details: String,
    },
    /// A call did not return.
    CallNotSuccessful {
        /// How it ended.
        result: ExecutionResult,
    },
    /// What a call returned could not be decoded.
    Decode {
        /// What was to be decoded.
        what: &'static str,
        /// What the decoder reported.
        details: String,
    },
    /// A block trace could not be understood.
    TraceParse(TraceFault),
}

/// What part of a block trace could not be understood.
#[derive(Debug, PartialEq, Eq)]
pub enum TraceFault {
    /// An address is malformed.
    InvalidAddress {
        /// The text.
        text: String,
    },
    /// A word is malformed.
    InvalidU256 {
        /// The text.
        text: String,
    },
    /// A word is neither text nor a number.
    ExpectedU256,
    /// A count is malformed.
    InvalidU64 {
        /// The text.
        text: String,
    },
    /// A count is neither text nor a number.
    ExpectedU64,
    /// Code is malformed.
    InvalidCode {
        /// The text.
        text: String,
    },
    /// Code is not text.
    ExpectedCode,
}

} // verus!
