//! Measuring what a call does to token balances by reading them before and after.

use crate::access_list::{merge_access_lists, merged, AccessList};
use crate::bytes::Bytes;
use crate::cache::config::SimStatus;
use crate::errors::CacheError;
use crate::execution::{
    balance_deltas, deltas_of, last_values, logs_model, CallSimulationResult, ExecutionModel,
    ExecutionResult, JournalAction, Log, LogModel,
};
use crate::primitives::{Address, U256};
use vstd::prelude::*;

verus! {

/// What is to be done next.
#[derive(Clone, Copy, Debug, PartialEq, Eq, Structural)]
pub enum DeltaAction {
    /// Read the balance of a token, before the call, in an execution of its own.
    ReadBefore {
        /// The token.
        token: Address,
    },
    /// Run the call.
    RunCall,
    /// Read the balance of a token, after the call, leaving the state as it is.
    ReadAfter {
        /// The token.
        token: Address,
    },
    /// Nothing.
    Finish,
}

/// What a call that returned left.
pub struct ReturnedCall {
    /// The gas it used.
    pub gas_used: u64,
    /// The events it emitted, in order.
    pub logs: Vec<Log>,
    /// What it returned.
    pub output: Bytes,
}

/// What a [`ReturnedCall`] holds.
pub struct ReturnedModel {
    /// The gas it used.
    pub gas_used: u64,
    /// The events it emitted, in order.
    pub logs: Seq<LogModel>,
    /// What it returned.
    pub output: Seq<u8>,
}

/// How far a measurement has come.
#[verifier::ext_equal]
pub struct DeltaState {
    /// The balances read before the call.
    pub before: Seq<(Address, U256)>,
    /// The balances read after the call.
    pub after: Seq<(Address, U256)>,
    /// What each execution touched, in order.
    pub touched: Seq<AccessList>,
    /// What the call left.
    pub call: Option<ReturnedModel>,
    /// Why it cannot go on.
    pub failure: Option<CacheError>,
}

impl DeltaState {
    /// Nothing is done yet.
    pub open spec fn initial() -> Self {
        DeltaState {
            before: Seq::empty(),
            after: Seq::empty(),
            touched: Seq::empty(),
            call: None,
            failure: None,
        }
    }

    /// What is to be done next.
    pub open spec fn next(self, tokens: Seq<Address>) -> DeltaAction {
        if self.failure is Some {
            DeltaAction::Finish
        } else if self.before.len() < tokens.len() {
            DeltaAction::ReadBefore { token: tokens[self.before.len() as int] }
        } else if self.call is None {
            DeltaAction::RunCall
        } else if self.after.len() < tokens.len() {
            DeltaAction::ReadAfter { token: tokens[self.after.len() as int] }
        } else {
            DeltaAction::Finish
        }
    }

    /// With a balance read, or why it could not be.
    pub open spec fn with_balance(
        self,
        tokens: Seq<Address>,
        answer: Result<(U256, AccessList), CacheError>,
    ) -> Self {
        match (answer, self.next(tokens)) {
            (Ok(read), DeltaAction::ReadBefore { token }) => DeltaState {
                before: self.before.push((token, read.0)),
                touched: self.touched.push(read.1),
                ..self
            },
            (Ok(read), DeltaAction::ReadAfter { token }) => DeltaState {
                after: self.after.push((token, read.0)),
                touched: self.touched.push(read.1),
                ..self
            },
            (Err(error), _) => DeltaState { failure: Some(error), ..self },
            _ => self,
        }
    }

    /// With the end of the call.
    pub open spec fn with_call(self, result: ExecutionResult, touched: AccessList) -> Self {
        match result@ {
            ExecutionModel::Success { gas_used, logs, output, .. } => DeltaState {
                call: Some(ReturnedModel { gas_used, logs, output }),
                touched: self.touched.push(touched),
                ..self
            },
            _ => DeltaState { failure: Some(CacheError::CallNotSuccessful { result }), ..self },
        }
    }

    /// How many steps there are left at most.
    pub open spec fn left(self, tokens: Seq<Address>) -> int {
        if self.failure is Some {
            0
        } else {
            2 * tokens.len() + 1 - self.before.len() - self.after.len() - if self.call is Some {
                1int
            } else {
                0
            }
        }
    }
}

/// A measurement.
pub struct DeltaRun {
    tokens: Vec<Address>,
    commit: bool,
    before: Vec<(Address, U256)>,
    after: Vec<(Address, U256)>,
    touched: Vec<AccessList>,
    call: Option<ReturnedCall>,
    failure: Option<CacheError>,
}

impl DeltaRun {
    /// The tokens.
    pub closed spec fn tokens(self) -> Seq<Address> {
        self.tokens@
    }

    /// Whether the state is to be kept.
    pub closed spec fn commits(self) -> bool {
        self.commit
    }

    /// How far the measurement has come.
    pub closed spec fn state(self) -> DeltaState {
        DeltaState {
            before: self.before@,
            after: self.after@,
            touched: self.touched@,
            call: match self.call {
                Some(call) => Some(
                    ReturnedModel {
                        gas_used: call.gas_used,
                        logs: logs_model(call.logs@),
                        output: call.output@,
                    },
                ),
                None => None,
            },
            failure: self.failure,
        }
    }

    /// A measurement that has not begun.
    pub fn new(tokens: Vec<Address>, commit: bool) -> (r: Self)
        ensures
            r.tokens() == tokens@,
            r.commits() == commit,
            r.state() == DeltaState::initial(),
    {
        let r = DeltaRun {
            tokens,
            commit,
            before: Vec::new(),
            after: Vec::new(),
            touched: Vec::new(),
            call: None,
            failure: None,
        };
        assert(r.state() =~= DeltaState::initial());
        r
    }

    /// What is to be done next.
    pub fn next(&self) -> (r: DeltaAction)
        ensures
            r == self.state().next(self.tokens()),
    {
        if self.failure.is_some() {
            DeltaAction::Finish
        } else if self.before.len() < self.tokens.len() {
            DeltaAction::ReadBefore { token: self.tokens[self.before.len()] }
        } else if self.call.is_none() {
            DeltaAction::RunCall
        } else if self.after.len() < self.tokens.len() {
            DeltaAction::ReadAfter { token: self.tokens[self.after.len()] }
        } else {
            DeltaAction::Finish
        }
    }

    /// Takes in a balance with what reading it touched, or why it could not be
    /// read.
    pub fn record_balance(&mut self, answer: Result<(U256, AccessList), CacheError>)
        requires
            old(self).state().next(old(self).tokens()) is ReadBefore || old(self).state().next(
                old(self).tokens(),
            ) is ReadAfter,
        ensures
            final(self).tokens() == old(self).tokens(),
            final(self).commits() == old(self).commits(),
            final(self).state() == old(self).state().with_balance(old(self).tokens(), answer),
    {
        let action: DeltaAction = self.next();
        match answer {
            Ok((balance, touched)) => match action {
                DeltaAction::ReadBefore { token } => {
                    self.before.push((token, balance));
                    self.touched.push(touched);
                },
                DeltaAction::ReadAfter { token } => {
                    self.after.push((token, balance));
                    self.touched.push(touched);
                },
                _ => {},
            },
            Err(error) => {
                self.failure = Some(error);
            },
        }
        assert(self.state() =~= old(self).state().with_balance(old(self).tokens(), answer));
    }

    /// Takes in the end of the call with what it touched.
    pub fn record_call(&mut self, result: ExecutionResult, touched: AccessList)
        requires
            old(self).state().next(old(self).tokens()) is RunCall,
        ensures
            final(self).tokens() == old(self).tokens(),
            final(self).commits() == old(self).commits(),
            final(self).state() == old(self).state().with_call(result, touched),
    {
        match result {
            ExecutionResult::Success { gas_used, logs, output, .. } => {
                self.call = Some(ReturnedCall { gas_used, logs, output });
                self.touched.push(touched);
            },
            failed => {
                self.failure = Some(CacheError::CallNotSuccessful { result: failed });
            },
        }
        assert(self.state() =~= old(self).state().with_call(result, touched));
    }

    /// What is done with the state, and what was measured: the change of each
    /// balance, and all that was touched. The state is kept only where that was
    /// asked for and nothing failed.
    pub fn finish(self) -> (r: (JournalAction, Result<CallSimulationResult, CacheError>))
        requires
            self.state().next(self.tokens()) is Finish,
        ensures
            match self.state().failure {
                Some(error) => {
                    &&& r.0 == JournalAction::Revert
                    &&& r.1 == Err::<CallSimulationResult, CacheError>(error)
                },
                None => {
                    &&& r.0 == if self.commits() {
                        JournalAction::Commit
                    } else {
                        JournalAction::Revert
                    }
                    &&& r.1 matches Ok(sim)
                    &&& sim.status == SimStatus::Success
                    &&& sim.gas_used == self.state().call->0.gas_used
                    &&& logs_model(sim.logs@) == self.state().call->0.logs
                    &&& sim.output@ == self.state().call->0.output
                    &&& sim.token_deltas@ == deltas_of(
                        last_values(self.state().before),
                        self.state().after,
                    )
                    &&& sim.access_list@ == merged(self.state().touched)
                },
            },
    {
        if let Some(error) = self.failure {
            return (JournalAction::Revert, Err(error));
        }
        let action: JournalAction = if self.commit {
            JournalAction::Commit
        } else {
            JournalAction::Revert
        };
        match self.call {
            Some(call) => (
                action,
                Ok(
                    CallSimulationResult {
                        status: SimStatus::Success,
                        gas_used: call.gas_used,
                        token_deltas: balance_deltas(&self.before, &self.after),
                        logs: call.logs,
                        access_list: merge_access_lists(self.touched),
                        output: call.output,
                    },
                ),
            ),
            None => vstd::pervasive::unreached(),
        }
    }
}

/// What holds of a measurement throughout: balances are read in the order of the
/// tokens, those after the call only once it has returned.
pub open spec fn measures(state: DeltaState, tokens: Seq<Address>) -> bool {
    &&& state.before.len() <= tokens.len()
    &&& state.after.len() <= tokens.len()
    &&& state.call is Some ==> state.before.len() == tokens.len()
    &&& state.after.len() > 0 ==> state.call is Some
    &&& forall|i: int| 0 <= i < state.before.len() ==> (#[trigger] state.before[i]).0 == tokens[i]
    &&& forall|i: int| 0 <= i < state.after.len() ==> (#[trigger] state.after[i]).0 == tokens[i]
}

/// A measurement ends: every balance read and the call leave fewer steps to take.
pub proof fn law_measurements_end(
    state: DeltaState,
    tokens: Seq<Address>,
    answer: Result<(U256, AccessList), CacheError>,
    result: ExecutionResult,
    touched: AccessList,
)
    requires
        measures(state, tokens),
    ensures
        measures(DeltaState::initial(), tokens),
        state.next(tokens) is ReadBefore || state.next(tokens) is ReadAfter ==> {
            let next = state.with_balance(tokens, answer);
            measures(next, tokens) && 0 <= next.left(tokens) < state.left(tokens)
        },
        state.next(tokens) is RunCall ==> {
            let next = state.with_call(result, touched);
            measures(next, tokens) && 0 <= next.left(tokens) < state.left(tokens)
        },
{
}

/// A measurement tells what each balance changed by: for a token that was asked
/// for, the balance read after the call less the balance read before it.
pub proof fn law_deltas_are_differences(
    before: Seq<(Address, U256)>,
    after: Seq<(Address, U256)>,
    i: int,
)
    requires
        before.len() == after.len(),
        forall|j: int| 0 <= j < after.len() ==> (#[trigger] before[j]).0 == after[j].0,
        forall|j: int, k: int| 0 <= j < k < after.len() ==> after[j].0 != after[k].0,
        0 <= i < after.len(),
    ensures
        deltas_of(last_values(before), after).contains_key(after[i].0),
        deltas_of(last_values(before), after)[after[i].0] == after[i].1.spec_wrapping_sub(
            before[i].1,
        ),
{
    lemma_last_value(before, i);
    lemma_delta(last_values(before), after, i);
}

/// A key that occurs once has the value that stands there.
proof fn lemma_last_value(entries: Seq<(Address, U256)>, i: int)
    requires
        0 <= i < entries.len(),
        forall|j: int| 0 <= j < entries.len() && j != i ==> (#[trigger] entries[j]).0 != entries[i].0,
    ensures
        last_values(entries).contains_key(entries[i].0),
        last_values(entries)[entries[i].0] == entries[i].1,
    decreases entries.len(),
{
    if i < entries.len() - 1 {
        let less = entries.drop_last();
        assert(less[i] == entries[i]);
        assert forall|j: int| 0 <= j < less.len() && j != i implies (#[trigger] less[j]).0
            != less[i].0 by {
            assert(less[j] == entries[j]);
        }
        lemma_last_value(less, i);
        assert(entries[entries.len() - 1].0 != entries[i].0);
    }
}

/// A token that occurs once has the change that its balance gives.
proof fn lemma_delta(pre: Map<Address, U256>, after: Seq<(Address, U256)>, i: int)
    requires
        0 <= i < after.len(),
        pre.contains_key(after[i].0),
        forall|j: int, k: int| 0 <= j < k < after.len() ==> after[j].0 != after[k].0,
    ensures
        deltas_of(pre, after).contains_key(after[i].0),
        deltas_of(pre, after)[after[i].0] == after[i].1.spec_wrapping_sub(pre[after[i].0]),
    decreases after.len(),
{
    if i < after.len() - 1 {
        let less = after.drop_last();
        assert(less[i] == after[i]);
        lemma_delta(pre, less, i);
        assert(after[i].0 != after[after.len() - 1].0);
    }
}

} // verus!
