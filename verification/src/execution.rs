//! What an execution gives back, and what is done with the state it changed.

use crate::access_list::AccessList;
use crate::bytes::Bytes;
use crate::cache::config::SimStatus;
use crate::collections::SortedMap;
use crate::primitives::{Address, B256, U256};
use vstd::prelude::*;

verus! {

/// An event that a contract emitted.
#[derive(Debug, PartialEq, Eq)]
pub struct Log {
    /// The contract.
    pub address: Address,
    /// The topics.
    pub topics: Vec<B256>,
    /// The data.
    pub data: Bytes,
}

/// What an event holds.
#[verifier::ext_equal]
pub struct LogModel {
    /// The contract.
    pub address: Address,
    /// The topics.
    pub topics: Seq<B256>,
    /// The data.
    pub data: Seq<u8>,
}

impl View for Log {
    type V = LogModel;

    open spec fn view(&self) -> LogModel {
        LogModel { address: self.address, topics: self.topics@, data: self.data@ }
    }
}

/// What several events hold.
pub open spec fn logs_model(logs: Seq<Log>) -> Seq<LogModel> {
    logs.map_values(|log: Log| log@)
}

/// A copy of several events.
pub fn copy_logs(logs: &Vec<Log>) -> (r: Vec<Log>)
    ensures
        logs_model(r@) == logs_model(logs@),
{
    let mut copies: Vec<Log> = Vec::new();
    let mut i: usize = 0;
    while i < logs.len()
        invariant
            i <= logs.len(),
            logs_model(copies@) =~= logs_model(logs@).take(i as int),
        decreases logs.len() - i,
    {
        let mut topics: Vec<B256> = Vec::new();
        topics.extend_from_slice(logs[i].topics.as_slice());
        assert(topics@ =~= logs@[i as int].topics@);
        let copied = Log { address: logs[i].address, topics, data: logs[i].data.clone() };
        assert(copied@ =~= logs@[i as int]@);
        let ghost before = copies@;
        copies.push(copied);
        assert(logs_model(copies@) =~= logs_model(before).push(logs@[i as int]@));
        i = i + 1;
    }
    assert(logs_model(copies@) =~= logs_model(logs@));
    copies
}

/// What made an execution return.
#[derive(Clone, Copy, Debug, PartialEq, Eq, Structural)]
pub enum SuccessReason {
    /// It stopped.
    Stop,
    /// It returned data.
    Return,
    /// It destroyed itself.
    SelfDestruct,
}

/// How an execution ended.
#[derive(Debug, PartialEq, Eq)]
pub enum ExecutionResult {
    /// It returned.
    Success {
        /// What made it return.
        reason: SuccessReason,
        /// The gas it used.
        gas_used: u64,
        /// The gas it was given back.
        gas_refunded: u64,
        /// The events it emitted, in order.
        logs: Vec<Log>,
        /// What it returned.
        output: Bytes,
        /// The contract it created, if it created one.
        created: Option<Address>,
    },
    /// It reverted.
    Revert {
        /// The gas it used.
        gas_used: u64,
        /// What it reverted with.
        output: Bytes,
    },
    /// It halted.
    Halt {
        /// Why.
        reason: String,
        /// The gas it used.
        gas_used: u64,
    },
}

/// What the end of an execution holds.
#[verifier::ext_equal]
pub enum ExecutionModel {
    /// It returned.
    Success {
        /// What made it return.
        reason: SuccessReason,
        /// The gas it used.
        gas_used: u64,
        /// The gas it was given back.
        gas_refunded: u64,
        /// The events it emitted, in order.
        logs: Seq<LogModel>,
        /// What it returned.
        output: Seq<u8>,
        /// The contract it created, if it created one.
        created: Option<Address>,
    },
    /// It reverted.
    Revert {
        /// The gas it used.
        gas_used: u64,
        /// What it reverted with.
        output: Seq<u8>,
    },
    /// It halted.
    Halt {
        /// Why.
        reason: Seq<char>,
        /// The gas it used.
        gas_used: u64,
    },
}

impl ExecutionModel {
    /// The gas used.
    pub open spec fn gas(self) -> u64 {
        match self {
            ExecutionModel::Success { gas_used, .. } => gas_used,
            ExecutionModel::Revert { gas_used, .. } => gas_used,
            ExecutionModel::Halt { gas_used, .. } => gas_used,
        }
    }

    /// The events emitted; a failed execution leaves none.
    pub open spec fn events(self) -> Seq<LogModel> {
        match self {
            ExecutionModel::Success { logs, .. } => logs,
            _ => Seq::empty(),
        }
    }
}

impl View for ExecutionResult {
    type V = ExecutionModel;

    open spec fn view(&self) -> ExecutionModel {
        match self {
            ExecutionResult::Success { reason, gas_used, gas_refunded, logs, output, created } => {
                ExecutionModel::Success {
                    reason: *reason,
                    gas_used: *gas_used,
                    gas_refunded: *gas_refunded,
                    logs: logs_model(logs@),
                    output: output@,
                    created: *created,
                }
            },
            ExecutionResult::Revert { gas_used, output } => {
                ExecutionModel::Revert { gas_used: *gas_used, output: output@ }
            },
            ExecutionResult::Halt { reason, gas_used } => {
                ExecutionModel::Halt { reason: reason@, gas_used: *gas_used }
            },
        }
    }
}

impl ExecutionResult {
    /// The gas used.
    pub fn gas_used(&self) -> (r: u64)
        ensures
            r == self@.gas(),
    {
        match self {
            ExecutionResult::Success { gas_used, .. } => *gas_used,
            ExecutionResult::Revert { gas_used, .. } => *gas_used,
            ExecutionResult::Halt { gas_used, .. } => *gas_used,
        }
    }

    /// Whether it returned.
    pub fn is_success(&self) -> (r: bool)
        ensures
            r == (self@ is Success),
    {
        match self {
            ExecutionResult::Success { .. } => true,
            _ => false,
        }
    }

    /// A copy of the events emitted.
    pub fn logs(&self) -> (r: Vec<Log>)
        ensures
            logs_model(r@) == self@.events(),
    {
        match self {
            ExecutionResult::Success { logs, .. } => copy_logs(logs),
            _ => {
                let none: Vec<Log> = Vec::new();
                assert(logs_model(none@) =~= Seq::empty());
                none
            },
        }
    }
}

/// What is done with the state that an execution changed.
#[derive(Clone, Copy, Debug, PartialEq, Eq, Structural)]
pub enum JournalAction {
    /// It is kept.
    Commit,
    /// It is undone.
    Revert,
}

/// Why a simulation has no result.
#[derive(Debug, PartialEq, Eq)]
pub enum SimError {
    /// The call reverted.
    Revert {
        /// The gas it used.
        gas_used: u64,
        /// What it reverted with.
        output: Bytes,
    },
    /// The call halted.
    Halt {
        /// Why.
        reason: String,
        /// The gas it used.
        gas_used: u64,
    },
    /// The call could not be run.
    Host {
        /// What was reported.
        details: String,
    },
}

/// What is done with the state after an inspected call: it is kept only where
/// that was asked for and the call returned.
pub fn settle_inspected(result: &ExecutionResult, commit: bool) -> (r: JournalAction)
    ensures
        r == if commit && result@ is Success {
            JournalAction::Commit
        } else {
            JournalAction::Revert
        },
{
    if commit && result.is_success() {
        JournalAction::Commit
    } else {
        JournalAction::Revert
    }
}

/// The result of a simulated call.
pub struct CallSimulationResult {
    /// How the call ended.
    pub status: SimStatus,
    /// The gas it used.
    pub gas_used: u64,
    /// The change of each token balance, as a two's complement number.
    pub token_deltas: SortedMap<Address, U256>,
    /// The events it emitted, in order.
    pub logs: Vec<Log>,
    /// What it touched.
    pub access_list: AccessList,
    /// What it returned.
    pub output: Bytes,
}

/// Turns the end of a tracked call into its result. `token_deltas` and
/// `access_list` are what was observed while it ran; they count only where the
/// call returned.
pub fn settle_tracked(
    result: ExecutionResult,
    token_deltas: SortedMap<Address, U256>,
    access_list: AccessList,
    commit: bool,
) -> (r: (JournalAction, Result<CallSimulationResult, SimError>))
    ensures
        r.0 == if commit && result@ is Success {
            JournalAction::Commit
        } else {
            JournalAction::Revert
        },
        match result@ {
            ExecutionModel::Success { gas_used, logs, output, .. } => {
                &&& r.1 matches Ok(sim)
                &&& sim.status is Success
                &&& sim.gas_used == gas_used
                &&& logs_model(sim.logs@) == logs
                &&& sim.output@ == output
                &&& sim.token_deltas == token_deltas
                &&& sim.access_list == access_list
            },
            ExecutionModel::Revert { gas_used, output } => {
                &&& r.1 matches Err(SimError::Revert { gas_used: used, output: data })
                &&& used == gas_used
                &&& data@ == output
            },
            ExecutionModel::Halt { reason, gas_used } => {
                &&& r.1 matches Err(SimError::Halt { reason: why, gas_used: used })
                &&& used == gas_used
                &&& why@ == reason
            },
        },
{
    match result {
        ExecutionResult::Success { gas_used, logs, output, .. } => {
            let action = if commit {
                JournalAction::Commit
            } else {
                JournalAction::Revert
            };
            (
                action,
                Ok(
                    CallSimulationResult {
                        status: SimStatus::Success,
                        gas_used,
                        token_deltas,
                        logs,
                        access_list,
                        output,
                    },
                ),
            )
        },
        ExecutionResult::Revert { gas_used, output } => (
            JournalAction::Revert,
            Err(SimError::Revert { gas_used, output }),
        ),
        ExecutionResult::Halt { reason, gas_used } => (
            JournalAction::Revert,
            Err(SimError::Halt { reason, gas_used }),
        ),
    }
}

/// The change of each token balance: what it is now less what it was, modulo
/// 2^256. A balance that was not read before counts as zero.
pub open spec fn deltas_of(pre: Map<Address, U256>, post: Seq<(Address, U256)>) -> Map<Address, U256>
    decreases post.len(),
{
    if post.len() == 0 {
        Map::empty()
    } else {
        let (token, balance) = post.last();
        let before = if pre.contains_key(token) {
            pre[token]
        } else {
            U256::zero()
        };
        deltas_of(pre, post.drop_last()).insert(token, balance.spec_wrapping_sub(before))
    }
}

/// The change of each token balance, from balances read before and after a call.
pub fn balance_deltas(pre: &Vec<(Address, U256)>, post: &Vec<(Address, U256)>) -> (r: SortedMap<
    Address,
    U256,
>)
    ensures
        r@ == deltas_of(last_values(pre@), post@),
{
    let mut before: SortedMap<Address, U256> = SortedMap::new();
    let mut i: usize = 0;
    assert(pre@.take(0) =~= Seq::empty());
    while i < pre.len()
        invariant
            i <= pre.len(),
            before@ == last_values(pre@.take(i as int)),
        decreases pre.len() - i,
    {
        before.insert(pre[i].0, pre[i].1);
        assert(pre@.take(i as int + 1).drop_last() =~= pre@.take(i as int));
        i = i + 1;
    }
    assert(pre@.take(i as int) =~= pre@);
    let mut deltas: SortedMap<Address, U256> = SortedMap::new();
    let mut k: usize = 0;
    assert(post@.take(0) =~= Seq::empty());
    while k < post.len()
        invariant
            k <= post.len(),
            before@ == last_values(pre@),
            deltas@ == deltas_of(before@, post@.take(k as int)),
        decreases post.len() - k,
    {
        let known: U256 = match before.get(&post[k].0) {
            Some(balance) => *balance,
            None => U256::zero(),
        };
        deltas.insert(post[k].0, post[k].1.wrapping_sub(known));
        assert(post@.take(k as int + 1).drop_last() =~= post@.take(k as int));
        k = k + 1;
    }
    assert(post@.take(k as int) =~= post@);
    deltas
}

/// The value that each key was given last.
pub open spec fn last_values(entries: Seq<(Address, U256)>) -> Map<Address, U256>
    decreases entries.len(),
{
    if entries.len() == 0 {
        Map::empty()
    } else {
        last_values(entries.drop_last()).insert(entries.last().0, entries.last().1)
    }
}

/// Why a contract could not be deployed.
#[derive(Debug, PartialEq, Eq)]
pub enum DeploymentError {
    /// The deployment returned no address.
    MissingAddress,
    /// The deployment reverted.
    Reverted {
        /// What it reverted with.
        output: Bytes,
    },
    /// The deployment halted.
    Halted {
        /// Why.
        reason: String,
    },
}

/// The address of a deployed contract.
pub fn deployed_address(result: ExecutionResult) -> (r: Result<Address, DeploymentError>)
    ensures
        match result@ {
            ExecutionModel::Success { created: Some(address), .. } => r == Ok::<
                Address,
                DeploymentError,
            >(address),
            ExecutionModel::Success { created: None, .. } => r == Err::<Address, DeploymentError>(
                DeploymentError::MissingAddress,
            ),
            ExecutionModel::Revert { output, .. } => r matches Err(
                DeploymentError::Reverted { output: data },
            ) && data@ == output,
            ExecutionModel::Halt { reason, .. } => r matches Err(
                DeploymentError::Halted { reason: why },
            ) && why@ == reason,
        },
{
    match result {
        ExecutionResult::Success { created, .. } => match created {
            Some(address) => Ok(address),
            None => Err(DeploymentError::MissingAddress),
        },
        ExecutionResult::Revert { output, .. } => Err(DeploymentError::Reverted { output }),
        ExecutionResult::Halt { reason, .. } => Err(DeploymentError::Halted { reason }),
    }
}

} // verus!
