//! Setting a token balance whose slot may have to be found first.

use crate::cache::account::{AccountInfo, AccountModel, DbAccount, InfoModel};
use crate::cache::erc20::{fetched_model, is_underived_error, with_entry, word_of};
use crate::cache::evm_cache::EvmCache;
use crate::cache::layers::{lookup, overlay_model, LayersModel};
use crate::cache::mapping::{SlotLayout, TrackedMapping};
use crate::collections::{Duplicate, SortedMap};
use crate::errors::CacheError;
use crate::primitives::{Address, U256};
use vstd::prelude::*;

verus! {

/// The value that a scan writes, unless the balance is that already.
pub const PROBE_VALUE: u64 = 0xdead_beef;

/// Where a run stands.
#[derive(Clone, Copy, Debug, PartialEq, Eq, Structural)]
pub enum BalanceStage {
    /// The amount is written where the mapping known keeps it.
    Known(TrackedMapping),
    /// The mapping is to be discovered.
    Discovery,
    /// The amount is written where the mapping discovered keeps it.
    Discovered(TrackedMapping),
    /// A scan is about to begin.
    Baseline,
    /// A probe is written at a base slot.
    Scanning {
        /// The probe.
        probe: U256,
        /// The base slot.
        index: u16,
    },
    /// The amount is written where the mapping found keeps it.
    Chosen(TrackedMapping),
    /// It is over.
    Settled {
        /// Whether the balance is set.
        verified: bool,
    },
}

/// What is to be done next.
#[derive(Clone, Copy, Debug, PartialEq, Eq, Structural)]
pub enum BalanceAction {
    /// Read the balance of the owner.
    ReadBalance,
    /// Find out where the token keeps the owner's balance.
    Discover,
    /// Nothing.
    Finish {
        /// Whether the balance is set.
        verified: bool,
    },
}

/// What was done.
#[derive(Clone, Copy, Debug, PartialEq, Eq)]
pub enum BalanceEvent {
    /// The balance was read.
    Balance(U256),
    /// It was found out, or not, where the token keeps the owner's balance.
    Discovered(Option<TrackedMapping>),
}

/// What a run is to do.
pub struct ScanGoal {
    /// The token.
    pub token: Address,
    /// The owner.
    pub owner: Address,
    /// The balance.
    pub amount: U256,
    /// The last base slot to scan.
    pub max_slot: u16,
    /// The token's account as fetched.
    pub account: Option<InfoModel>,
}

/// The state that a run works on.
pub struct ScanState {
    /// The cache's layers.
    pub layers: LayersModel,
    /// Where tokens keep balances.
    pub known: Map<Address, TrackedMapping>,
    /// The overlay to return to.
    pub baseline: Option<Map<Address, AccountModel>>,
    /// Where the run stands.
    pub stage: BalanceStage,
}

/// The value that a scan writes: another than the balance.
pub open spec fn probe_for(balance: U256) -> U256 {
    let probe = U256 { hi: 0, lo: PROBE_VALUE as u128 };
    if probe == balance {
        U256 { hi: 0, lo: (PROBE_VALUE + 1) as u128 }
    } else {
        probe
    }
}

/// The value that a scan writes: another than the balance.
pub fn probe_value(balance: U256) -> (r: U256)
    ensures
        r == probe_for(balance),
        r != balance,
{
    let probe: U256 = U256::from_u64(PROBE_VALUE);
    proof {
        U256::lemma_injective(probe, U256 { hi: 0, lo: PROBE_VALUE as u128 });
    }
    if probe == balance {
        let next: U256 = U256::from_u64(PROBE_VALUE + 1);
        proof {
            U256::lemma_injective(next, U256 { hi: 0, lo: (PROBE_VALUE + 1) as u128 });
        }
        next
    } else {
        probe
    }
}

impl ScanGoal {
    /// The mapping at a base slot.
    pub open spec fn candidate(self, index: u16) -> TrackedMapping {
        TrackedMapping {
            contract: self.token,
            base_slot: U256 { hi: 0, lo: index as u128 },
            layout: SlotLayout::SolidityMapping,
        }
    }

    /// The state with the owner's entry written; nothing where its slot does not
    /// follow from the owner.
    pub open spec fn written(
        self,
        state: ScanState,
        mapping: TrackedMapping,
        value: U256,
        stage: BalanceStage,
    ) -> Option<ScanState> {
        match with_entry(state.layers, mapping, word_of(self.owner), value, self.account) {
            Some(layers) => Some(ScanState { layers, stage, ..state }),
            None => None,
        }
    }

    /// The state with the overlay that the scan began with.
    pub open spec fn restored(self, state: ScanState) -> ScanState {
        ScanState {
            layers: LayersModel { overlay: state.baseline->0, ..state.layers },
            ..state
        }
    }

    /// The state with a probe written at a base slot, and nowhere else.
    pub open spec fn probing(self, state: ScanState, probe: U256, index: u16) -> Option<
        ScanState,
    > {
        self.written(
            self.restored(state),
            self.candidate(index),
            probe,
            BalanceStage::Scanning { probe, index },
        )
    }

    /// The state at the beginning.
    pub open spec fn started(
        self,
        layers: LayersModel,
        known: Map<Address, TrackedMapping>,
    ) -> Option<ScanState> {
        let state = ScanState { layers, known, baseline: None, stage: BalanceStage::Discovery };
        match lookup(known, self.token) {
            Some(mapping) => self.written(
                state,
                mapping,
                self.amount,
                BalanceStage::Known(mapping),
            ),
            None => Some(state),
        }
    }

    /// The state after an event; nothing where an entry could not be written.
    pub open spec fn stepped(self, state: ScanState, event: BalanceEvent) -> Option<ScanState> {
        match (state.stage, event) {
            (BalanceStage::Known(_), BalanceEvent::Balance(balance)) => Some(
                if balance == self.amount {
                    ScanState { stage: BalanceStage::Settled { verified: true }, ..state }
                } else {
                    ScanState {
                        known: state.known.remove(self.token),
                        stage: BalanceStage::Discovery,
                        ..state
                    }
                },
            ),
            (
                BalanceStage::Discovery,
                BalanceEvent::Discovered(Some(mapping)),
            ) => self.written(
                state,
                mapping,
                self.amount,
                BalanceStage::Discovered(mapping),
            ),
            (BalanceStage::Discovery, BalanceEvent::Discovered(None)) => Some(
                ScanState {
                    baseline: Some(state.layers.overlay),
                    stage: BalanceStage::Baseline,
                    ..state
                },
            ),
            (BalanceStage::Discovered(mapping), BalanceEvent::Balance(balance)) => Some(
                if balance == self.amount {
                    ScanState {
                        known: state.known.insert(self.token, mapping),
                        stage: BalanceStage::Settled { verified: true },
                        ..state
                    }
                } else {
                    ScanState {
                        baseline: Some(state.layers.overlay),
                        stage: BalanceStage::Baseline,
                        ..state
                    }
                },
            ),
            (BalanceStage::Baseline, BalanceEvent::Balance(balance)) => self.probing(
                state,
                probe_for(balance),
                0,
            ),
            (
                BalanceStage::Scanning { probe, index },
                BalanceEvent::Balance(balance),
            ) => if balance == probe {
                let found = ScanState {
                    known: state.known.insert(self.token, self.candidate(index)),
                    ..self.restored(state)
                };
                self.written(
                    found,
                    self.candidate(index),
                    self.amount,
                    BalanceStage::Chosen(self.candidate(index)),
                )
            } else if index < self.max_slot {
                self.probing(state, probe, (index + 1) as u16)
            } else {
                Some(
                    ScanState {
                        stage: BalanceStage::Settled { verified: false },
                        ..self.restored(state)
                    },
                )
            },
            (BalanceStage::Chosen(mapping), BalanceEvent::Balance(balance)) => Some(
                if balance == self.amount {
                    ScanState {
                        known: state.known.insert(self.token, mapping),
                        stage: BalanceStage::Settled { verified: true },
                        ..state
                    }
                } else {
                    ScanState {
                        known: state.known.remove(self.token),
                        stage: BalanceStage::Settled { verified: false },
                        ..state
                    }
                },
            ),
            _ => Some(state),
        }
    }

    /// How many events a run takes at most from here.
    pub open spec fn left(self, stage: BalanceStage) -> int {
        match stage {
            BalanceStage::Settled { .. } => 0,
            BalanceStage::Chosen(_) => 1,
            BalanceStage::Scanning { index, .. } => 2 + self.max_slot - index,
            BalanceStage::Baseline => self.max_slot + 3,
            BalanceStage::Discovered(_) => self.max_slot + 4,
            BalanceStage::Discovery => self.max_slot + 5,
            BalanceStage::Known(_) => self.max_slot + 6,
        }
    }

    /// What holds of the state throughout.
    pub open spec fn holds(self, state: ScanState) -> bool {
        match state.stage {
            BalanceStage::Known(mapping) => lookup(state.known, self.token) == Some(mapping),
            BalanceStage::Chosen(mapping) => lookup(state.known, self.token) == Some(mapping),
            BalanceStage::Settled { verified } => state.known.contains_key(self.token) == verified,
            BalanceStage::Scanning { index, .. } => index <= self.max_slot && state.baseline is Some
                && !state.known.contains_key(self.token),
            BalanceStage::Baseline => state.baseline is Some && !state.known.contains_key(
                self.token,
            ),
            _ => !state.known.contains_key(self.token),
        }
    }
}

/// Whether an event answers what is to be done at a stage.
pub open spec fn answers(event: BalanceEvent, stage: BalanceStage) -> bool {
    match stage {
        BalanceStage::Settled { .. } => false,
        BalanceStage::Discovery => event is Discovered,
        _ => event is Balance,
    }
}

/// A copy of an overlay.
pub fn copy_checkpoint(checkpoint: &SortedMap<Address, DbAccount>) -> (r: SortedMap<
    Address,
    DbAccount,
>)
    ensures
        overlay_model(r@) == overlay_model(checkpoint@),
{
    let r = checkpoint.copy();
    proof {
        assert forall|a: Address| #[trigger] checkpoint@.contains_key(a) implies checkpoint@[a]@
            == r@[a]@ by {
            assert(checkpoint@[a].same(&r@[a]));
        }
        assert(overlay_model(r@) =~= overlay_model(checkpoint@));
    }
    r
}

/// A run that sets a token balance.
pub struct BalanceRun {
    token: Address,
    owner: Address,
    amount: U256,
    max_slot: u16,
    account: Option<AccountInfo>,
    baseline: Option<SortedMap<Address, DbAccount>>,
    stage: BalanceStage,
}

impl BalanceRun {
    /// What the run is to do.
    pub closed spec fn goal(self) -> ScanGoal {
        ScanGoal {
            token: self.token,
            owner: self.owner,
            amount: self.amount,
            max_slot: self.max_slot,
            account: fetched_model(self.account),
        }
    }

    /// Where the run stands.
    pub closed spec fn stage(self) -> BalanceStage {
        self.stage
    }

    /// The state that the run works on.
    pub closed spec fn state(self, cache: EvmCache) -> ScanState {
        ScanState {
            layers: cache.layers@,
            known: cache.erc20_balance_slots@,
            baseline: match self.baseline {
                Some(baseline) => Some(overlay_model(baseline@)),
                None => None,
            },
            stage: self.stage,
        }
    }

    /// The token's account as fetched.
    fn account(&self) -> (r: Option<AccountInfo>)
        ensures
            fetched_model(r) == self.goal().account,
    {
        match &self.account {
            Some(info) => Some(info.clone()),
            None => None,
        }
    }

    /// Begins a run: the amount is written where the token is known to keep it,
    /// if that is known. `account` is the token's account as fetched.
    pub fn start(
        cache: &mut EvmCache,
        token: Address,
        owner: Address,
        amount: U256,
        max_slot: u16,
        account: Option<AccountInfo>,
    ) -> (r: Result<BalanceRun, CacheError>)
        requires
            old(cache).wf(),
        ensures
            final(cache).wf(),
            *final(cache) == (EvmCache { layers: final(cache).layers, ..*old(cache) }),
            ({
                let goal = ScanGoal {
                    token,
                    owner,
                    amount,
                    max_slot,
                    account: fetched_model(account),
                };
                match goal.started(old(cache).layers@, old(cache).erc20_balance_slots@) {
                    Some(state) => {
                        &&& r matches Ok(run)
                        &&& run.goal() == goal
                        &&& run.state(*final(cache)) == state
                        &&& goal.holds(state)
                    },
                    None => {
                        &&& r matches Err(error)
                        &&& is_underived_error(error, old(cache).erc20_balance_slots@[token])
                        &&& *final(cache) == *old(cache)
                    },
                }
            }),
    {
        let mut run = BalanceRun {
            token,
            owner,
            amount,
            max_slot,
            account,
            baseline: None,
            stage: BalanceStage::Discovery,
        };
        let mapping: Option<TrackedMapping> = match cache.erc20_balance_slots.get(&token) {
            Some(mapping) => Some(*mapping),
            None => None,
        };
        match mapping {
            Some(mapping) => {
                match run.write(cache, &mapping, amount) {
                    Ok(()) => {},
                    Err(error) => return Err(error),
                }
                run.stage = BalanceStage::Known(mapping);
            },
            None => {},
        }
        Ok(run)
    }

    /// Writes the owner's entry.
    fn write(&self, cache: &mut EvmCache, mapping: &TrackedMapping, value: U256) -> (r: Result<
        (),
        CacheError,
    >)
        requires
            old(cache).wf(),
        ensures
            final(cache).wf(),
            *final(cache) == (EvmCache { layers: final(cache).layers, ..*old(cache) }),
            match with_entry(
                old(cache).layers@,
                *mapping,
                word_of(self.goal().owner),
                value,
                self.goal().account,
            ) {
                Some(layers) => r is Ok && final(cache).layers@ == layers,
                None => {
                    &&& r matches Err(error)
                    &&& is_underived_error(error, *mapping)
                    &&& *final(cache) == *old(cache)
                },
            },
    {
        let key: U256 = self.owner.into_word();
        proof {
            U256::lemma_injective(key, word_of(self.owner));
        }
        match cache.write_mapping_entry(mapping, key, value, self.account()) {
            Ok(_) => Ok(()),
            Err(error) => Err(error),
        }
    }

    /// What is to be done next.
    pub fn next(&self) -> (r: BalanceAction)
        ensures
            r == match self.stage() {
                BalanceStage::Discovery => BalanceAction::Discover,
                BalanceStage::Settled { verified } => BalanceAction::Finish { verified },
                _ => BalanceAction::ReadBalance,
            },
    {
        match self.stage {
            BalanceStage::Discovery => BalanceAction::Discover,
            BalanceStage::Settled { verified } => BalanceAction::Finish { verified },
            _ => BalanceAction::ReadBalance,
        }
    }

    /// Returns to the overlay that the scan began with.
    fn rewind(&self, cache: &mut EvmCache)
        requires
            old(cache).wf(),
            self.baseline is Some,
        ensures
            final(cache).wf(),
            *final(cache) == (EvmCache { layers: final(cache).layers, ..*old(cache) }),
            final(cache).layers@ == (LayersModel {
                overlay: overlay_model(self.baseline->0@),
                ..old(cache).layers@
            }),
    {
        if let Some(baseline) = &self.baseline {
            cache.restore(copy_checkpoint(baseline));
        }
    }

    /// Writes a probe at a base slot, and nowhere else.
    fn probe(&mut self, cache: &mut EvmCache, probe: U256, index: u16) -> (r: Result<
        (),
        CacheError,
    >)
        requires
            old(cache).wf(),
            old(self).baseline is Some,
        ensures
            final(cache).wf(),
            final(self).goal() == old(self).goal(),
            *final(cache) == (EvmCache { layers: final(cache).layers, ..*old(cache) }),
            r is Ok,
            old(self).goal().probing(old(self).state(*old(cache)), probe, index) == Some(
                final(self).state(*final(cache)),
            ),
    {
        self.rewind(cache);
        let base_slot: U256 = U256::from_u64(index as u64);
        proof {
            U256::lemma_injective(base_slot, U256 { hi: 0, lo: index as u128 });
        }
        let mapping: TrackedMapping = TrackedMapping::new(
            self.token,
            base_slot,
            SlotLayout::SolidityMapping,
        );
        let written: Result<(), CacheError> = self.write(cache, &mapping, probe);
        self.stage = BalanceStage::Scanning { probe, index };
        written
    }

    /// Takes in what was done, and writes what is to be read next. A mapping that
    /// does not hold the balance is given up; one is kept only where the balance
    /// read is the amount.
    pub fn record(&mut self, cache: &mut EvmCache, event: BalanceEvent) -> (r: Result<
        (),
        CacheError,
    >)
        requires
            old(cache).wf(),
            old(self).goal().holds(old(self).state(*old(cache))),
            answers(event, old(self).stage()),
        ensures
            final(cache).wf(),
            final(self).goal() == old(self).goal(),
            *final(cache) == (EvmCache {
                layers: final(cache).layers,
                erc20_balance_slots: final(cache).erc20_balance_slots,
                ..*old(cache)
            }),
            match old(self).goal().stepped(old(self).state(*old(cache)), event) {
                Some(state) => {
                    &&& r is Ok
                    &&& final(self).state(*final(cache)) == state
                    &&& final(self).stage() == state.stage
                    &&& old(self).goal().holds(state)
                },
                None => {
                    &&& event matches BalanceEvent::Discovered(Some(mapping))
                    &&& r matches Err(error)
                    &&& is_underived_error(error, mapping)
                    &&& *final(cache) == *old(cache)
                },
            },
    {
        let stage: BalanceStage = self.stage;
        match event {
            BalanceEvent::Discovered(found) => match found {
                Some(mapping) => {
                    match self.write(cache, &mapping, self.amount) {
                        Ok(()) => {},
                        Err(error) => return Err(error),
                    }
                    self.stage = BalanceStage::Discovered(mapping);
                    Ok(())
                },
                None => {
                    self.baseline = Some(cache.checkpoint());
                    self.stage = BalanceStage::Baseline;
                    Ok(())
                },
            },
            BalanceEvent::Balance(balance) => match stage {
                BalanceStage::Known(_) => {
                    if balance == self.amount {
                        self.stage = BalanceStage::Settled { verified: true };
                    } else {
                        cache.erc20_balance_slots.remove(&self.token);
                        self.stage = BalanceStage::Discovery;
                    }
                    Ok(())
                },
                BalanceStage::Discovered(mapping) => {
                    if balance == self.amount {
                        cache.erc20_balance_slots.insert(self.token, mapping);
                        self.stage = BalanceStage::Settled { verified: true };
                    } else {
                        self.baseline = Some(cache.checkpoint());
                        self.stage = BalanceStage::Baseline;
                    }
                    Ok(())
                },
                BalanceStage::Baseline => self.probe(cache, probe_value(balance), 0),
                BalanceStage::Scanning { probe, index } => {
                    if balance == probe {
                        self.rewind(cache);
                        let base_slot: U256 = U256::from_u64(index as u64);
                        proof {
                            U256::lemma_injective(base_slot, U256 { hi: 0, lo: index as u128 });
                        }
                        let mapping: TrackedMapping = TrackedMapping::new(
                            self.token,
                            base_slot,
                            SlotLayout::SolidityMapping,
                        );
                        cache.erc20_balance_slots.insert(self.token, mapping);
                        match self.write(cache, &mapping, self.amount) {
                            Ok(()) => {},
                            Err(error) => return Err(error),
                        }
                        self.stage = BalanceStage::Chosen(mapping);
                        Ok(())
                    } else if index < self.max_slot {
                        self.probe(cache, probe, index + 1)
                    } else {
                        self.rewind(cache);
                        self.stage = BalanceStage::Settled { verified: false };
                        Ok(())
                    }
                },
                BalanceStage::Chosen(mapping) => {
                    if balance == self.amount {
                        cache.erc20_balance_slots.insert(self.token, mapping);
                        self.stage = BalanceStage::Settled { verified: true };
                    } else {
                        cache.erc20_balance_slots.remove(&self.token);
                        self.stage = BalanceStage::Settled { verified: false };
                    }
                    Ok(())
                },
                _ => Ok(()),
            },
        }
    }
}

/// A run ends: every event leaves fewer events to take.
pub proof fn law_runs_end(goal: ScanGoal, state: ScanState, event: BalanceEvent)
    requires
        goal.holds(state),
        answers(event, state.stage),
        goal.stepped(state, event) is Some,
    ensures
        goal.holds(goal.stepped(state, event)->0),
        0 <= goal.left(goal.stepped(state, event)->0.stage) < goal.left(state.stage),
{
}

/// A balance counts as set only where it was read back: the last event of a run
/// that ends well is the amount, and the mapping is then known; after a run that
/// does not end well none is known.
pub proof fn law_set_balances_are_read_back(goal: ScanGoal, state: ScanState, event: BalanceEvent)
    requires
        goal.holds(state),
        answers(event, state.stage),
    ensures
        match goal.stepped(state, event) {
            Some(next) => {
                &&& next.stage == (BalanceStage::Settled { verified: true }) ==> event
                    == BalanceEvent::Balance(goal.amount) && next.known.contains_key(goal.token)
                &&& next.stage == (BalanceStage::Settled { verified: false })
                    ==> !next.known.contains_key(goal.token)
            },
            None => true,
        },
{
}

/// A scan that finds nothing leaves the overlay as it found it.
pub proof fn law_empty_scan_leaves_no_trace(
    goal: ScanGoal,
    state: ScanState,
    balance: U256,
    probe: U256,
)
    requires
        goal.holds(state),
        state.stage == (BalanceStage::Scanning { probe, index: goal.max_slot }),
        balance != probe,
    ensures
        goal.stepped(state, BalanceEvent::Balance(balance)) matches Some(next) && next.stage == (
        BalanceStage::Settled { verified: false }) && next.layers.overlay == state.baseline->0,
{
}

} // verus!
