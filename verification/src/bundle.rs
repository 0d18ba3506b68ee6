//! Bundles: ordered transactions over one cumulative state.
//!
//! Whoever executes the transactions keeps two kinds of savepoint in the state:
//! one before the bundle and one before each transaction. [`BundleRun`] decides,
//! from how each transaction ended, which savepoint to return to and when to
//! stop, and accounts for gas and for what the beneficiary was paid.

use crate::bytes::Bytes;
use crate::cache::config::TxConfig;
use crate::execution::{logs_model, ExecutionModel, ExecutionResult, JournalAction, Log, LogModel};
use crate::primitives::{Address, U256};
use vstd::prelude::*;

verus! {

/// One transaction of a bundle: a call.
#[derive(Debug, PartialEq, Eq)]
pub struct BundleTx {
    /// The sender.
    pub from: Address,
    /// The contract called.
    pub to: Address,
    /// The calldata.
    pub calldata: Bytes,
    /// Overrides of the transaction.
    pub tx: TxConfig,
}

impl BundleTx {
    /// A transaction without overrides.
    pub fn new(from: Address, to: Address, calldata: Bytes) -> (r: Self)
        ensures
            r.from == from,
            r.to == to,
            r.calldata == calldata,
            r.tx.value@ == 0,
            r.tx.gas_limit is None,
            r.tx.gas_price is None,
            r.tx.nonce is None,
            r.tx.access_list is None,
    {
        BundleTx { from, to, calldata, tx: TxConfig::default() }
    }

    /// A transaction with overrides.
    pub fn with_config(from: Address, to: Address, calldata: Bytes, tx: TxConfig) -> (r: Self)
        ensures
            r == (BundleTx { from, to, calldata, tx }),
    {
        BundleTx { from, to, calldata, tx }
    }
}

/// What happens where a transaction of a bundle reverts or halts.
#[derive(Debug, PartialEq, Eq)]
pub enum RevertPolicy {
    /// The whole bundle is undone and stops there.
    Atomic,
    /// The transactions at these positions are undone alone, and the bundle goes
    /// on; at any other position it is undone and stops.
    AllowReverts(Vec<usize>),
}

impl Default for RevertPolicy {
    fn default() -> (r: Self)
        ensures
            r is Atomic,
    {
        RevertPolicy::Atomic
    }
}

/// Whether a position is listed.
pub open spec fn is_listed(positions: Seq<usize>, position: int) -> bool {
    exists|i: int| 0 <= i < positions.len() && #[trigger] positions[i] == position
}

impl RevertPolicy {
    /// Whether the transaction at a position may fail without undoing the
    /// bundle.
    pub open spec fn spec_allows(self, position: int) -> bool {
        match self {
            RevertPolicy::Atomic => false,
            RevertPolicy::AllowReverts(positions) => is_listed(positions@, position),
        }
    }

    /// Whether the transaction at a position may fail without undoing the
    /// bundle.
    pub fn allows(&self, position: usize) -> (r: bool)
        ensures
            r == self.spec_allows(position as int),
    {
        match self {
            RevertPolicy::Atomic => false,
            RevertPolicy::AllowReverts(positions) => {
                let mut i: usize = 0;
                while i < positions.len()
                    invariant
                        i <= positions.len(),
                        *self == RevertPolicy::AllowReverts(*positions),
                        forall|j: int| 0 <= j < i ==> #[trigger] positions@[j] != position,
                    decreases positions.len() - i,
                {
                    if positions[i] == position {
                        assert(is_listed(positions@, position as int));
                        return true;
                    }
                    i = i + 1;
                }
                false
            },
        }
    }
}

/// How a bundle is run.
#[derive(Debug, PartialEq, Eq)]
pub struct BundleOptions {
    /// What happens where a transaction fails.
    pub revert_policy: RevertPolicy,
    /// Whether the state that the bundle leaves is kept.
    pub commit: bool,
}

impl Default for BundleOptions {
    fn default() -> (r: Self)
        ensures
            r.revert_policy is Atomic,
            !r.commit,
    {
        BundleOptions { revert_policy: RevertPolicy::default(), commit: false }
    }
}

/// How one transaction of a bundle ended.
#[derive(Debug, PartialEq, Eq)]
pub struct TxOutcome {
    /// How its execution ended.
    pub result: ExecutionResult,
    /// The gas it used.
    pub gas_used: u64,
    /// Whether it reverted or halted.
    pub reverted: bool,
    /// The events it emitted.
    pub logs: Vec<Log>,
}

/// What the end of a transaction holds.
#[verifier::ext_equal]
pub struct OutcomeModel {
    /// How its execution ended.
    pub result: ExecutionModel,
    /// The gas it used.
    pub gas_used: u64,
    /// Whether it reverted or halted.
    pub reverted: bool,
    /// The events it emitted.
    pub logs: Seq<LogModel>,
}

impl View for TxOutcome {
    type V = OutcomeModel;

    open spec fn view(&self) -> OutcomeModel {
        OutcomeModel {
            result: self.result@,
            gas_used: self.gas_used,
            reverted: self.reverted,
            logs: logs_model(self.logs@),
        }
    }
}

/// The outcome of a transaction whose execution ended so.
pub open spec fn outcome_of(result: ExecutionModel) -> OutcomeModel {
    OutcomeModel {
        result,
        gas_used: result.gas(),
        reverted: !(result is Success),
        logs: result.events(),
    }
}

/// What several outcomes hold.
pub open spec fn outcomes_model(outcomes: Seq<TxOutcome>) -> Seq<OutcomeModel> {
    outcomes.map_values(|outcome: TxOutcome| outcome@)
}

/// The result of a bundle.
#[derive(Debug, PartialEq, Eq)]
pub struct BundleResult {
    /// How each executed transaction ended.
    pub per_tx: Vec<TxOutcome>,
    /// By how much the beneficiary's balance grew.
    pub coinbase_payment: U256,
    /// The gas that all executed transactions used.
    pub gas_used: u64,
    /// Whether the bundle was not undone.
    pub succeeded: bool,
}

/// What to do with the state after a transaction.
#[derive(Clone, Copy, Debug, PartialEq, Eq, Structural)]
pub enum BundleAction {
    /// Keep what it changed, for the next transaction to see.
    Keep,
    /// Return to the savepoint before it, and go on.
    UndoTransaction,
    /// Return to the savepoint before the bundle, and stop.
    UndoBundle,
}

/// How far a bundle has come.
#[verifier::ext_equal]
pub struct RunModel {
    /// How each executed transaction ended.
    pub per_tx: Seq<OutcomeModel>,
    /// The gas they used.
    pub gas_used: u64,
    /// Whether the bundle was undone.
    pub aborted: bool,
    /// The positions of the transactions whose changes are in the state.
    pub kept: Set<int>,
}

/// A sum that stops at the largest number.
pub open spec fn gas_sum(a: u64, b: u64) -> u64 {
    if a + b > u64::MAX {
        u64::MAX
    } else {
        (a + b) as u64
    }
}

impl RunModel {
    /// Before the first transaction.
    pub open spec fn start() -> Self {
        RunModel { per_tx: Seq::empty(), gas_used: 0, aborted: false, kept: Set::empty() }
    }

    /// What the policy asks for where the next transaction ends so.
    pub open spec fn action(self, policy: RevertPolicy, result: ExecutionModel) -> BundleAction {
        if result is Success {
            BundleAction::Keep
        } else if policy.spec_allows(self.per_tx.len() as int) {
            BundleAction::UndoTransaction
        } else {
            BundleAction::UndoBundle
        }
    }

    /// After the next transaction. Nothing follows once the bundle was undone.
    pub open spec fn step(self, policy: RevertPolicy, result: ExecutionModel) -> Self {
        if self.aborted {
            self
        } else {
            let action = self.action(policy, result);
            RunModel {
                per_tx: self.per_tx.push(outcome_of(result)),
                gas_used: gas_sum(self.gas_used, result.gas()),
                aborted: action is UndoBundle,
                kept: match action {
                    BundleAction::Keep => self.kept.insert(self.per_tx.len() as int),
                    BundleAction::UndoTransaction => self.kept,
                    BundleAction::UndoBundle => Set::empty(),
                },
            }
        }
    }
}

/// How far a bundle has come once its transactions ended so, in order.
pub open spec fn run_of(policy: RevertPolicy, results: Seq<ExecutionModel>) -> RunModel
    decreases results.len(),
{
    if results.len() == 0 {
        RunModel::start()
    } else {
        run_of(policy, results.drop_last()).step(policy, results.last())
    }
}

/// A bundle that is being run.
pub struct BundleRun {
    count: usize,
    per_tx: Vec<TxOutcome>,
    gas_used: u64,
    aborted: bool,
    kept: Ghost<Set<int>>,
}

impl View for BundleRun {
    type V = RunModel;

    closed spec fn view(&self) -> RunModel {
        RunModel {
            per_tx: outcomes_model(self.per_tx@),
            gas_used: self.gas_used,
            aborted: self.aborted,
            kept: self.kept@,
        }
    }
}

impl BundleRun {
    /// The number of transactions.
    pub closed spec fn spec_count(self) -> nat {
        self.count as nat
    }

    /// Whether no more transactions were recorded than there are.
    pub open spec fn wf(self) -> bool {
        self@.per_tx.len() <= self.spec_count()
    }

    /// A bundle of so many transactions.
    pub fn new(count: usize) -> (r: Self)
        ensures
            r.wf(),
            r@ == RunModel::start(),
            r.spec_count() == count,
    {
        let r = BundleRun {
            count,
            per_tx: Vec::new(),
            gas_used: 0,
            aborted: false,
            kept: Ghost(Set::empty()),
        };
        assert(outcomes_model(r.per_tx@) =~= Seq::empty());
        r
    }

    /// The position of the transaction to execute next, if one is left.
    pub fn next(&self) -> (r: Option<usize>)
        requires
            self.wf(),
        ensures
            r == if self@.aborted || self@.per_tx.len() == self.spec_count() {
                None::<usize>
            } else {
                Some(self@.per_tx.len() as usize)
            },
    {
        if self.aborted || self.per_tx.len() == self.count {
            None
        } else {
            Some(self.per_tx.len())
        }
    }

    /// Takes in how the next transaction ended, and says what to do with the
    /// state.
    pub fn record(&mut self, result: ExecutionResult, policy: &RevertPolicy) -> (r: BundleAction)
        requires
            old(self).wf(),
            !old(self)@.aborted,
            old(self)@.per_tx.len() < old(self).spec_count(),
        ensures
            final(self).wf(),
            final(self)@ == old(self)@.step(*policy, result@),
            final(self).spec_count() == old(self).spec_count(),
            r == old(self)@.action(*policy, result@),
    {
        let gas_used: u64 = result.gas_used();
        let reverted: bool = !result.is_success();
        let logs = result.logs();
        let position: usize = self.per_tx.len();
        self.gas_used = match self.gas_used.checked_add(gas_used) {
            Some(total) => total,
            None => u64::MAX,
        };
        let ghost before = self.per_tx@;
        let outcome = TxOutcome { result, gas_used, reverted, logs };
        assert(outcome@ =~= outcome_of(result@));
        self.per_tx.push(outcome);
        assert(outcomes_model(self.per_tx@) =~= outcomes_model(before).push(outcome_of(result@)));
        if !reverted {
            proof {
                self.kept@ = self.kept@.insert(position as int);
            }
            BundleAction::Keep
        } else if policy.allows(position) {
            BundleAction::UndoTransaction
        } else {
            proof {
                self.kept@ = Set::empty();
            }
            self.aborted = true;
            BundleAction::UndoBundle
        }
    }

    /// The result of the bundle, and what to do with the state it left.
    ///
    /// `before` is the beneficiary's balance before the bundle, `after` the one
    /// in the state now, if that holds the beneficiary. A bundle that was undone
    /// pays nothing and leaves nothing to keep.
    pub fn finish(self, before: U256, after: Option<U256>, commit: bool) -> (r: (
        BundleResult,
        JournalAction,
    ))
        ensures
            outcomes_model(r.0.per_tx@) == self@.per_tx,
            r.0.gas_used == self@.gas_used,
            r.0.succeeded == !self@.aborted,
            r.0.coinbase_payment@ == if self@.aborted || after is None || after->0@ < before@ {
                0
            } else {
                (after->0@ - before@) as nat
            },
            r.1 == if commit && !self@.aborted {
                JournalAction::Commit
            } else {
                JournalAction::Revert
            },
    {
        if self.aborted {
            return (
                BundleResult {
                    per_tx: self.per_tx,
                    coinbase_payment: U256::zero(),
                    gas_used: self.gas_used,
                    succeeded: false,
                },
                JournalAction::Revert,
            );
        }
        let balance: U256 = match after {
            Some(balance) => balance,
            None => before,
        };
        let action = if commit {
            JournalAction::Commit
        } else {
            JournalAction::Revert
        };
        (
            BundleResult {
                per_tx: self.per_tx,
                coinbase_payment: balance.saturating_sub(before),
                gas_used: self.gas_used,
                succeeded: true,
            },
            action,
        )
    }
}

/// Whether a transaction fails where the policy does not allow it.
pub open spec fn breaks_bundle(
    policy: RevertPolicy,
    results: Seq<ExecutionModel>,
    position: int,
) -> bool {
    0 <= position < results.len() && !(results[position] is Success) && !policy.spec_allows(
        position,
    )
}

/// A bundle is undone exactly where a transaction fails without leave; it then
/// ends with the first such transaction, and none of its changes are kept. A
/// bundle that is not undone executes every transaction and keeps the changes of
/// those that returned.
pub proof fn law_bundle_outcome(policy: RevertPolicy, results: Seq<ExecutionModel>)
    ensures
        run_of(policy, results).aborted <==> exists|i: int|
            #[trigger] breaks_bundle(policy, results, i),
        run_of(policy, results).aborted ==> {
            let run = run_of(policy, results);
            let end = run.per_tx.len() - 1;
            &&& breaks_bundle(policy, results, end)
            &&& forall|i: int| 0 <= i < end ==> !#[trigger] breaks_bundle(policy, results, i)
            &&& run.kept == Set::<int>::empty()
        },
        !run_of(policy, results).aborted ==> run_of(policy, results).per_tx.len() == results.len(),
        !run_of(policy, results).aborted ==> forall|i: int| #[trigger]
            run_of(policy, results).kept.contains(i) <==> 0 <= i < results.len()
                && results[i] is Success,
        forall|i: int|
            0 <= i < run_of(policy, results).per_tx.len() ==> #[trigger] run_of(
                policy,
                results,
            ).per_tx[i] == outcome_of(results[i]),
        run_of(policy, results).per_tx.len() <= results.len(),
    decreases results.len(),
{
    if results.len() > 0 {
        let init = results.drop_last();
        let last = results.len() - 1;
        law_bundle_outcome(policy, init);
        let before = run_of(policy, init);
        assert forall|i: int| 0 <= i < last implies #[trigger] breaks_bundle(policy, results, i)
            == breaks_bundle(policy, init, i) by {}
        if before.aborted {
            let end = before.per_tx.len() - 1;
            assert(breaks_bundle(policy, results, end));
        } else {
            assert(forall|i: int| !#[trigger] breaks_bundle(policy, init, i));
            assert(before.action(policy, results.last()) is UndoBundle <==> breaks_bundle(
                policy,
                results,
                last,
            ));
        }
    }
}

/// The gas of a bundle is the sum over the executed transactions, or the largest
/// number where that is smaller.
pub proof fn law_bundle_gas(policy: RevertPolicy, results: Seq<ExecutionModel>)
    ensures
        run_of(policy, results).gas_used == {
            let total = gas_total(run_of(policy, results).per_tx);
            if total > u64::MAX {
                u64::MAX as nat
            } else {
                total
            }
        },
    decreases results.len(),
{
    if results.len() > 0 {
        law_bundle_gas(policy, results.drop_last());
        let before = run_of(policy, results.drop_last());
        if !before.aborted {
            let after = run_of(policy, results);
            assert(after.per_tx.drop_last() =~= before.per_tx);
        }
    }
}

/// The gas that transactions used.
pub open spec fn gas_total(outcomes: Seq<OutcomeModel>) -> nat
    decreases outcomes.len(),
{
    if outcomes.len() == 0 {
        0
    } else {
        gas_total(outcomes.drop_last()) + outcomes.last().gas_used as nat
    }
}

} // verus!
