//! Reading slots and accounts one by one, in batches.

use crate::bulk_storage::response::SlotResult;
use crate::cache::config::StorageBatchConfig;
use crate::cache::hydration::{AccountProof, ProofAnswer};
use crate::errors::{RuntimeError, StorageFetchError};
use crate::primitives::{Address, B256, U256};
use vstd::prelude::*;

verus! {

/// How many proofs are fetched at a time unless told otherwise.
pub const DEFAULT_MAX_CONCURRENT_PROOFS: usize = 8;

/// Requests cut into batches of so many, the last one smaller where they do not
/// come out even.
pub open spec fn chunks(requests: Seq<(Address, U256)>, size: nat) -> Seq<Seq<(Address, U256)>>
    decreases requests.len(),
{
    if requests.len() == 0 || size == 0 {
        Seq::empty()
    } else if requests.len() <= size {
        seq![requests]
    } else {
        seq![requests.take(size as int)] + chunks(requests.skip(size as int), size)
    }
}

/// What batches hold.
pub open spec fn batches_model(batches: Seq<Vec<(Address, U256)>>) -> Seq<Seq<(Address, U256)>> {
    batches.map_values(|batch: Vec<(Address, U256)>| batch@)
}

/// Cuts requests into batches.
pub fn plan_batches(requests: &Vec<(Address, U256)>, config: StorageBatchConfig) -> (r: Vec<
    Vec<(Address, U256)>,
>)
    ensures
        batches_model(r@) == chunks(
            requests@,
            config.spec_normalized().slots_per_batch as nat,
        ),
{
    let size: usize = config.normalized().slots_per_batch;
    let mut batches: Vec<Vec<(Address, U256)>> = Vec::new();
    let n: usize = requests.len();
    let mut start: usize = 0;
    let ghost whole = chunks(requests@, size as nat);
    proof {
        assert(requests@.skip(0) =~= requests@);
        assert(batches_model(batches@) + whole =~= whole);
    }
    while start < n
        invariant
            start <= n == requests@.len(),
            size >= 1,
            whole == chunks(requests@, size as nat),
            batches_model(batches@) + chunks(requests@.skip(start as int), size as nat) == whole,
        decreases n - start,
    {
        let end: usize = if n - start <= size {
            n
        } else {
            start + size
        };
        let ghost rest = requests@.skip(start as int);
        let mut batch: Vec<(Address, U256)> = Vec::new();
        let mut i: usize = start;
        while i < end
            invariant
                start <= i <= end <= n == requests@.len(),
                batch@ =~= requests@.subrange(start as int, i as int),
            decreases end - i,
        {
            batch.push((requests[i].0, requests[i].1));
            i = i + 1;
        }
        let ghost before = batches@;
        let ghost made = batch@;
        batches.push(batch);
        proof {
            assert(batches_model(batches@) =~= batches_model(before).push(made));
            if rest.len() <= size {
                assert(made =~= rest);
                assert(requests@.skip(end as int) =~= Seq::empty());
                assert(batches_model(batches@) + chunks(requests@.skip(end as int), size as nat)
                    =~= batches_model(before) + seq![rest]);
            } else {
                assert(made =~= rest.take(size as int));
                assert(rest.skip(size as int) =~= requests@.skip(end as int));
                let tail = chunks(requests@.skip(end as int), size as nat);
                assert(batches_model(batches@) + tail =~= batches_model(before) + (
                seq![made] + tail));
            }
        }
        start = end;
    }
    proof {
        assert(requests@.skip(n as int) =~= Seq::empty());
        assert(batches_model(batches@) + Seq::<Seq<(Address, U256)>>::empty() =~= batches_model(
            batches@,
        ));
    }
    batches
}

/// What batches hold together.
pub open spec fn joined(batches: Seq<Seq<(Address, U256)>>) -> Seq<(Address, U256)>
    decreases batches.len(),
{
    if batches.len() == 0 {
        Seq::empty()
    } else {
        batches.first() + joined(batches.drop_first())
    }
}

/// Batches hold every request once, in order, and none is empty or too large.
pub proof fn law_batches_cover_requests(requests: Seq<(Address, U256)>, size: nat)
    requires
        size >= 1,
    ensures
        joined(chunks(requests, size)) == requests,
        forall|i: int|
            0 <= i < chunks(requests, size).len() ==> 1 <= (#[trigger] chunks(
                requests,
                size,
            )[i]).len() <= size,
    decreases requests.len(),
{
    if requests.len() == 0 {
        assert(joined(chunks(requests, size)) =~= requests);
    } else if requests.len() <= size {
        let parts = chunks(requests, size);
        assert(parts.drop_first() =~= Seq::empty());
        assert(joined(parts.drop_first()) =~= Seq::empty());
        assert(joined(parts) =~= requests);
    } else {
        let rest = requests.skip(size as int);
        law_batches_cover_requests(rest, size);
        let parts = chunks(requests, size);
        assert(parts.drop_first() =~= chunks(rest, size));
        assert(joined(parts) =~= requests.take(size as int) + rest);
        assert(requests.take(size as int) + rest =~= requests);
        assert forall|i: int| 0 <= i < parts.len() implies 1 <= (#[trigger] parts[i]).len()
            <= size by {
            if i > 0 {
                assert(parts[i] == chunks(rest, size)[i - 1]);
            }
        }
    }
}

/// What became of one call of a batch.
#[derive(Debug, PartialEq, Eq)]
pub enum CallReply {
    /// It returned a value.
    Value(U256),
    /// The provider reported an error.
    Failed {
        /// What it reported.
        details: String,
    },
    /// It could not be put into the batch.
    Unserializable {
        /// What the serializer reported.
        details: String,
    },
}

/// Whether a slot's result is what its call and its batch came to: a call that
/// was not in the batch failed for itself, and a batch that was not sent fails
/// every call in it.
pub open spec fn is_point_result(
    request: (Address, U256),
    reply: CallReply,
    send_error: Option<String>,
    result: SlotResult,
) -> bool {
    &&& result.0 == request.0
    &&& result.1 == request.1
    &&& match reply {
        CallReply::Unserializable { details } => result.2 == Err::<U256, StorageFetchError>(
            StorageFetchError::Serialization { details },
        ),
        _ => match send_error {
            Some(details) => result.2 == Err::<U256, StorageFetchError>(
                StorageFetchError::BatchSend { details },
            ),
            None => match reply {
                CallReply::Value(value) => result.2 == Ok::<U256, StorageFetchError>(value),
                CallReply::Failed { details } => {
                    &&& result.2 matches Err(StorageFetchError::Provider { method, details: told })
                    &&& method@ == "eth_getStorageAt"@
                    &&& told == details
                },
                CallReply::Unserializable { .. } => true,
            },
        },
    }
}

/// The results of one batch, call by call.
pub fn settle_batch(
    batch: &Vec<(Address, U256)>,
    replies: &Vec<CallReply>,
    send_error: &Option<String>,
) -> (r: Vec<SlotResult>)
    requires
        batch@.len() == replies@.len(),
    ensures
        r@.len() == batch@.len(),
        forall|i: int|
            0 <= i < batch@.len() ==> is_point_result(
                batch@[i],
                replies@[i],
                *send_error,
                #[trigger] r@[i],
            ),
{
    let mut results: Vec<SlotResult> = Vec::new();
    let mut i: usize = 0;
    while i < batch.len()
        invariant
            i <= batch.len(),
            batch@.len() == replies@.len(),
            results@.len() == i,
            forall|j: int|
                0 <= j < i ==> is_point_result(
                    batch@[j],
                    replies@[j],
                    *send_error,
                    #[trigger] results@[j],
                ),
        decreases batch.len() - i,
    {
        let outcome: Result<U256, StorageFetchError> = match &replies[i] {
            CallReply::Unserializable { details } => Err(
                StorageFetchError::Serialization { details: details.clone() },
            ),
            CallReply::Value(value) => match send_error {
                Some(details) => Err(StorageFetchError::BatchSend { details: details.clone() }),
                None => Ok(*value),
            },
            CallReply::Failed { details } => match send_error {
                Some(sent) => Err(StorageFetchError::BatchSend { details: sent.clone() }),
                None => Err(
                    StorageFetchError::Provider {
                        method: "eth_getStorageAt".to_owned(),
                        details: details.clone(),
                    },
                ),
            },
        };
        results.push((batch[i].0, batch[i].1, outcome));
        i = i + 1;
    }
    results
}

/// The results where no runtime can drive the calls.
pub open spec fn without_runtime(requests: Seq<(Address, U256)>, details: String) -> Seq<
    SlotResult,
> {
    requests.map_values(
        |request: (Address, U256)|
            (
                request.0,
                request.1,
                Err::<U256, StorageFetchError>(
                    StorageFetchError::Runtime(RuntimeError::MissingRuntime { details }),
                ),
            ),
    )
}

/// The results where no runtime can drive the calls.
pub fn fail_without_runtime(requests: &Vec<(Address, U256)>, details: String) -> (r: Vec<
    SlotResult,
>)
    ensures
        r@ == without_runtime(requests@, details),
{
    let mut results: Vec<SlotResult> = Vec::new();
    let mut i: usize = 0;
    while i < requests.len()
        invariant
            i <= requests.len(),
            results@ =~= without_runtime(requests@, details).take(i as int),
        decreases requests.len() - i,
    {
        results.push(
            (
                requests[i].0,
                requests[i].1,
                Err(
                    StorageFetchError::Runtime(
                        RuntimeError::MissingRuntime { details: details.clone() },
                    ),
                ),
            ),
        );
        i = i + 1;
    }
    assert(results@ =~= without_runtime(requests@, details));
    results
}

/// The results of a bulk fetch that no runtime can drive.
pub fn fail_bulk_without_runtime(requests: &Vec<(Address, U256)>, error: RuntimeError) -> (r: Vec<
    SlotResult,
>)
    ensures
        r@ == requests@.map_values(
            |request: (Address, U256)|
                (
                    request.0,
                    request.1,
                    Err::<U256, StorageFetchError>(StorageFetchError::Runtime(error)),
                ),
        ),
{
    let mut results: Vec<SlotResult> = Vec::new();
    let mut i: usize = 0;
    while i < requests.len()
        invariant
            i <= requests.len(),
            results@.len() == i,
            forall|k: int|
                0 <= k < i ==> #[trigger] results@[k] == (
                    requests@[k].0,
                    requests@[k].1,
                    Err::<U256, StorageFetchError>(StorageFetchError::Runtime(error)),
                ),
        decreases requests.len() - i,
    {
        results.push(
            (requests[i].0, requests[i].1, Err(StorageFetchError::Runtime(error.clone()))),
        );
        i = i + 1;
    }
    results
}

/// The answers to requests for proofs that no runtime can drive: each says why.
pub fn fail_proofs_without_runtime(
    requests: &Vec<(Address, Vec<U256>)>,
    details: String,
) -> (r: Vec<ProofAnswer>)
    ensures
        r@.len() == requests@.len(),
        forall|i: int|
            0 <= i < r@.len() ==> #[trigger] r@[i] == (
                requests@[i].0,
                Err::<AccountProof, StorageFetchError>(
                    StorageFetchError::Runtime(RuntimeError::MissingRuntime { details }),
                ),
            ),
{
    let mut answers: Vec<ProofAnswer> = Vec::new();
    let mut i: usize = 0;
    while i < requests.len()
        invariant
            i <= requests.len(),
            answers@.len() == i,
            forall|k: int|
                0 <= k < i ==> #[trigger] answers@[k] == (
                    requests@[k].0,
                    Err::<AccountProof, StorageFetchError>(
                        StorageFetchError::Runtime(RuntimeError::MissingRuntime { details }),
                    ),
                ),
        decreases requests.len() - i,
    {
        let error = RuntimeError::MissingRuntime { details: details.clone() };
        answers.push((requests[i].0, Err(StorageFetchError::Runtime(error))));
        i = i + 1;
    }
    answers
}

/// How many proofs are fetched at a time: at least one.
pub fn proof_concurrency(max_concurrent_proofs: usize) -> (r: usize)
    ensures
        r == if max_concurrent_proofs == 0 {
            1
        } else {
            max_concurrent_proofs
        },
{
    if max_concurrent_proofs == 0 {
        1
    } else {
        max_concurrent_proofs
    }
}

/// A provider's reply to a request for a proof.
#[derive(Debug, PartialEq, Eq)]
pub struct ProofReply {
    /// The balance.
    pub balance: U256,
    /// The nonce.
    pub nonce: u64,
    /// The hash of the code.
    pub code_hash: B256,
    /// The root of the storage.
    pub storage_hash: B256,
    /// Storage keys with their values.
    pub storage_proof: Vec<(B256, U256)>,
}

/// The slots of a reply.
pub open spec fn reply_slots(storage_proof: Seq<(B256, U256)>) -> Seq<(U256, U256)> {
    storage_proof.map_values(
        |proof: (B256, U256)| (U256 { hi: proof.0.hi, lo: proof.0.lo }, proof.1),
    )
}

/// The answer to a request for a proof.
pub fn settle_proof(address: Address, reply: Result<ProofReply, String>) -> (r: ProofAnswer)
    ensures
        r.0 == address,
        match reply {
            Ok(reply) => {
                &&& r.1 matches Ok(proof)
                &&& proof.balance == reply.balance
                &&& proof.nonce == reply.nonce
                &&& proof.code_hash == reply.code_hash
                &&& proof.storage_hash == reply.storage_hash
                &&& proof.slots@ == reply_slots(reply.storage_proof@)
            },
            Err(details) => {
                &&& r.1 matches Err(StorageFetchError::Provider { method, details: told })
                &&& method@ == "eth_getProof"@
                &&& told == details
            },
        },
{
    match reply {
        Ok(reply) => {
            let mut slots: Vec<(U256, U256)> = Vec::new();
            let mut i: usize = 0;
            while i < reply.storage_proof.len()
                invariant
                    i <= reply.storage_proof.len(),
                    slots@ =~= reply_slots(reply.storage_proof@).take(i as int),
                decreases reply.storage_proof.len() - i,
            {
                let key: B256 = reply.storage_proof[i].0;
                slots.push((U256 { hi: key.hi, lo: key.lo }, reply.storage_proof[i].1));
                i = i + 1;
            }
            assert(slots@ =~= reply_slots(reply.storage_proof@));
            (
                address,
                Ok(
                    AccountProof {
                        balance: reply.balance,
                        nonce: reply.nonce,
                        code_hash: reply.code_hash,
                        storage_hash: reply.storage_hash,
                        slots,
                    },
                ),
            )
        },
        Err(details) => (
            address,
            Err(StorageFetchError::Provider { method: "eth_getProof".to_owned(), details }),
        ),
    }
}

} // verus!
