//! Targeted writes to cached state, and what they changed.
//!
//! An update never fetches. A relative update of something that is not cached
//! cannot be computed: it changes nothing and is reported as skipped.

use crate::cache::account::{AccountInfo, Bytecode, InfoModel};
use crate::cache::layers::{lookup, slots_at, Layers, LayersModel};
use crate::foreign::code_hash_of;
use crate::primitives::{pow_256, Address, B256, U256};
use vstd::prelude::*;

verus! {

/// A relative change that stops at zero and at the largest word.
#[derive(Clone, Copy, Debug, PartialEq, Eq, Structural)]
pub enum SlotDelta {
    /// So much more.
    Add(U256),
    /// So much less.
    Sub(U256),
}

impl SlotDelta {
    /// The changed value.
    pub open spec fn spec_apply(self, value: U256) -> U256 {
        match self {
            SlotDelta::Add(amount) => U256::spec_from(
                if value@ + amount@ >= pow_256() {
                    (pow_256() - 1) as nat
                } else {
                    value@ + amount@
                },
            ),
            SlotDelta::Sub(amount) => U256::spec_from(
                if value@ <= amount@ {
                    0
                } else {
                    (value@ - amount@) as nat
                },
            ),
        }
    }

    /// The changed value.
    pub fn apply(&self, value: U256) -> (r: U256)
        ensures
            r == self.spec_apply(value),
    {
        let r = match self {
            SlotDelta::Add(amount) => value.saturating_add(*amount),
            SlotDelta::Sub(amount) => value.saturating_sub(*amount),
        };
        proof {
            U256::lemma_spec_from(r);
        }
        r
    }
}

/// Fields of an account to replace.
#[derive(Debug, PartialEq, Eq)]
pub struct AccountPatch {
    /// The balance.
    pub balance: Option<U256>,
    /// The nonce.
    pub nonce: Option<u64>,
    /// The code; its hash follows.
    pub code: Option<Bytecode>,
}

/// What a patch holds.
pub struct PatchModel {
    /// The balance.
    pub balance: Option<U256>,
    /// The nonce.
    pub nonce: Option<u64>,
    /// The code.
    pub code: Option<Seq<u8>>,
}

impl View for AccountPatch {
    type V = PatchModel;

    open spec fn view(&self) -> PatchModel {
        PatchModel {
            balance: self.balance,
            nonce: self.nonce,
            code: match self.code {
                Some(code) => Some(code@),
                None => None,
            },
        }
    }
}

impl Clone for AccountPatch {
    fn clone(&self) -> (r: Self)
        ensures
            r == *self,
    {
        let code: Option<Bytecode> = match &self.code {
            Some(code) => Some(code.clone()),
            None => None,
        };
        AccountPatch { balance: self.balance, nonce: self.nonce, code }
    }
}

impl PatchModel {
    /// Whether it replaces nothing.
    pub open spec fn is_empty(self) -> bool {
        self.balance is None && self.nonce is None && self.code is None
    }

    /// The account with the fields replaced.
    pub open spec fn applied(self, info: InfoModel) -> InfoModel {
        InfoModel {
            balance: match self.balance {
                Some(balance) => balance,
                None => info.balance,
            },
            nonce: match self.nonce {
                Some(nonce) => nonce,
                None => info.nonce,
            },
            code_hash: match self.code {
                Some(code) => B256::spec_from(code_hash_of(code)),
                None => info.code_hash,
            },
            code: match self.code {
                Some(code) => Some(code),
                None => info.code,
            },
        }
    }
}

/// Whether a patch replaces nothing.
pub fn account_patch_is_empty(patch: &AccountPatch) -> (r: bool)
    ensures
        r == patch@.is_empty(),
{
    patch.balance.is_none() && patch.nonce.is_none() && patch.code.is_none()
}

/// The account with the fields of a patch replaced.
fn patched_info(info: &AccountInfo, patch: &AccountPatch) -> (r: AccountInfo)
    ensures
        r@ == patch@.applied(info@),
{
    let mut patched = info.clone();
    if let Some(balance) = patch.balance {
        patched.balance = balance;
    }
    if let Some(nonce) = patch.nonce {
        patched.nonce = nonce;
    }
    if let Some(code) = &patch.code {
        patched.code_hash = code.hash_slow();
        patched.code = Some(code.clone());
    }
    patched
}

/// How much of an account to take out of the cache.
#[derive(Debug, PartialEq, Eq)]
pub enum PurgeScope {
    /// The account and its storage.
    Account,
    /// Its storage.
    AllStorage,
    /// Some slots.
    Slots(Vec<U256>),
}

/// What a scope holds.
#[verifier::ext_equal]
pub enum ScopeModel {
    /// The account and its storage.
    Account,
    /// Its storage.
    AllStorage,
    /// Some slots.
    Slots(Seq<U256>),
}

impl View for PurgeScope {
    type V = ScopeModel;

    open spec fn view(&self) -> ScopeModel {
        match self {
            PurgeScope::Account => ScopeModel::Account,
            PurgeScope::AllStorage => ScopeModel::AllStorage,
            PurgeScope::Slots(slots) => ScopeModel::Slots(slots@),
        }
    }
}

impl PurgeScope {
    /// A copy.
    pub fn copy(&self) -> (r: Self)
        ensures
            r@ == self@,
    {
        match self {
            PurgeScope::Account => PurgeScope::Account,
            PurgeScope::AllStorage => PurgeScope::AllStorage,
            PurgeScope::Slots(slots) => {
                let mut copied: Vec<U256> = Vec::new();
                copied.extend_from_slice(slots.as_slice());
                assert(copied@ =~= slots@);
                PurgeScope::Slots(copied)
            },
        }
    }
}

/// One write to cached state.
#[derive(Debug, PartialEq, Eq)]
pub enum StateUpdate {
    /// A slot gets a value.
    Slot {
        /// The account.
        address: Address,
        /// The slot.
        slot: U256,
        /// The value.
        value: U256,
    },
    /// A cached slot changes by an amount.
    SlotDelta {
        /// The account.
        address: Address,
        /// The slot.
        slot: U256,
        /// The change.
        delta: SlotDelta,
    },
    /// Some bits of a cached slot get a value.
    SlotMasked {
        /// The account.
        address: Address,
        /// The slot.
        slot: U256,
        /// Which bits.
        mask: U256,
        /// Their value.
        value: U256,
    },
    /// The balance of a cached account changes by an amount.
    BalanceDelta {
        /// The account.
        address: Address,
        /// The change.
        delta: SlotDelta,
    },
    /// Fields of a cached account are replaced.
    Account {
        /// The account.
        address: Address,
        /// The fields.
        patch: AccountPatch,
    },
    /// Fields of an account are replaced; one that is not cached is created.
    AccountUpsert {
        /// The account.
        address: Address,
        /// The fields.
        patch: AccountPatch,
    },
    /// Something is taken out of the cache.
    Purge {
        /// The account.
        address: Address,
        /// How much of it.
        scope: PurgeScope,
    },
}

/// What an update holds.
#[verifier::ext_equal]
pub enum UpdateModel {
    /// A slot gets a value.
    Slot {
        /// The account.
        address: Address,
        /// The slot.
        slot: U256,
        /// The value.
        value: U256,
    },
    /// A cached slot changes by an amount.
    SlotDelta {
        /// The account.
        address: Address,
        /// The slot.
        slot: U256,
        /// The change.
        delta: SlotDelta,
    },
    /// Some bits of a cached slot get a value.
    SlotMasked {
        /// The account.
        address: Address,
        /// The slot.
        slot: U256,
        /// Which bits.
        mask: U256,
        /// Their value.
        value: U256,
    },
    /// The balance of a cached account changes by an amount.
    BalanceDelta {
        /// The account.
        address: Address,
        /// The change.
        delta: SlotDelta,
    },
    /// Fields of an account are replaced.
    Account {
        /// The account.
        address: Address,
        /// The fields.
        patch: PatchModel,
        /// Whether one that is not cached is created.
        upsert: bool,
    },
    /// Something is taken out of the cache.
    Purge {
        /// The account.
        address: Address,
        /// How much of it.
        scope: ScopeModel,
    },
}

impl View for StateUpdate {
    type V = UpdateModel;

    open spec fn view(&self) -> UpdateModel {
        match *self {
            StateUpdate::Slot { address, slot, value } => UpdateModel::Slot {
                address,
                slot,
                value,
            },
            StateUpdate::SlotDelta { address, slot, delta } => UpdateModel::SlotDelta {
                address,
                slot,
                delta,
            },
            StateUpdate::SlotMasked { address, slot, mask, value } => UpdateModel::SlotMasked {
                address,
                slot,
                mask,
                value,
            },
            StateUpdate::BalanceDelta { address, delta } => UpdateModel::BalanceDelta {
                address,
                delta,
            },
            StateUpdate::Account { address, patch } => UpdateModel::Account {
                address,
                patch: patch@,
                upsert: false,
            },
            StateUpdate::AccountUpsert { address, patch } => UpdateModel::Account {
                address,
                patch: patch@,
                upsert: true,
            },
            StateUpdate::Purge { address, scope } => UpdateModel::Purge { address, scope: scope@ },
        }
    }
}

impl UpdateModel {
    /// The account it is about.
    pub open spec fn subject(self) -> Address {
        match self {
            UpdateModel::Slot { address, .. } => address,
            UpdateModel::SlotDelta { address, .. } => address,
            UpdateModel::SlotMasked { address, .. } => address,
            UpdateModel::BalanceDelta { address, .. } => address,
            UpdateModel::Account { address, .. } => address,
            UpdateModel::Purge { address, .. } => address,
        }
    }

    /// Whether it belongs to a run of slot writes.
    pub open spec fn in_slot_run(self) -> bool {
        self is Slot || self is SlotDelta
    }
}

/// What several updates hold.
pub open spec fn updates_model(updates: Seq<StateUpdate>) -> Seq<UpdateModel> {
    updates.map_values(|update: StateUpdate| update@)
}

/// A slot that changed.
#[derive(Clone, Copy, Debug, PartialEq, Eq, Structural)]
pub struct SlotChange {
    /// The account.
    pub address: Address,
    /// The slot.
    pub slot: U256,
    /// The value before.
    pub old: U256,
    /// The value after.
    pub new: U256,
}

/// An account that changed.
#[derive(Clone, Copy, Debug, PartialEq, Eq)]
pub struct AccountChange {
    /// The account.
    pub address: Address,
    /// The balance before and after, where it changed.
    pub balance: Option<(U256, U256)>,
    /// The nonce before and after, where it changed.
    pub nonce: Option<(u64, u64)>,
    /// The code hash before and after, where it changed.
    pub code_hash: Option<(B256, B256)>,
}

/// What differs between two accounts.
pub open spec fn change_between(address: Address, old: InfoModel, new: InfoModel) -> AccountChange {
    AccountChange {
        address,
        balance: if old.balance != new.balance {
            Some((old.balance, new.balance))
        } else {
            None
        },
        nonce: if old.nonce != new.nonce {
            Some((old.nonce, new.nonce))
        } else {
            None
        },
        code_hash: if old.code_hash != new.code_hash {
            Some((old.code_hash, new.code_hash))
        } else {
            None
        },
    }
}

impl AccountChange {
    /// Whether nothing changed.
    pub open spec fn is_none(self) -> bool {
        self.balance is None && self.nonce is None && self.code_hash is None
    }

    /// What differs between two accounts.
    fn between(address: Address, old: &AccountInfo, new: &AccountInfo) -> (r: Self)
        ensures
            r == change_between(address, old@, new@),
    {
        AccountChange {
            address,
            balance: if old.balance != new.balance {
                Some((old.balance, new.balance))
            } else {
                None
            },
            nonce: if old.nonce != new.nonce {
                Some((old.nonce, new.nonce))
            } else {
                None
            },
            code_hash: if old.code_hash != new.code_hash {
                Some((old.code_hash, new.code_hash))
            } else {
                None
            },
        }
    }
}

/// What was taken out of the cache.
#[derive(Debug, PartialEq, Eq)]
pub struct PurgeRecord {
    /// The account.
    pub address: Address,
    /// How much of it.
    pub scope: PurgeScope,
    /// How many slots the backend lost.
    pub slots_removed: usize,
    /// Whether the account was there.
    pub account_removed: bool,
}

/// What a purge record holds.
#[verifier::ext_equal]
pub struct PurgeModel {
    /// The account.
    pub address: Address,
    /// How much of it.
    pub scope: ScopeModel,
    /// How many slots the backend lost.
    pub slots_removed: nat,
    /// Whether the account was there.
    pub account_removed: bool,
}

impl View for PurgeRecord {
    type V = PurgeModel;

    open spec fn view(&self) -> PurgeModel {
        PurgeModel {
            address: self.address,
            scope: self.scope@,
            slots_removed: self.slots_removed as nat,
            account_removed: self.account_removed,
        }
    }
}

/// A change of a slot that is not cached.
#[derive(Clone, Copy, Debug, PartialEq, Eq, Structural)]
pub struct SkippedDelta {
    /// The account.
    pub address: Address,
    /// The slot.
    pub slot: U256,
    /// The change.
    pub delta: SlotDelta,
}

/// Bits of a slot that is not cached.
#[derive(Clone, Copy, Debug, PartialEq, Eq, Structural)]
pub struct SkippedMask {
    /// The account.
    pub address: Address,
    /// The slot.
    pub slot: U256,
    /// Which bits.
    pub mask: U256,
    /// Their value.
    pub value: U256,
}

/// A change of the balance of an account that is not cached.
#[derive(Clone, Copy, Debug, PartialEq, Eq, Structural)]
pub struct SkippedBalanceDelta {
    /// The account.
    pub address: Address,
    /// The change.
    pub delta: SlotDelta,
}

/// Fields of an account that is not cached.
#[derive(Debug, PartialEq, Eq)]
pub struct SkippedAccountPatch {
    /// The account.
    pub address: Address,
    /// The fields.
    pub patch: AccountPatch,
}

impl View for SkippedAccountPatch {
    type V = (Address, PatchModel);

    open spec fn view(&self) -> (Address, PatchModel) {
        (self.address, self.patch@)
    }
}

/// What updates changed, and what they skipped.
#[derive(Debug, PartialEq, Eq)]
pub struct StateDiff {
    /// Slots that changed.
    pub slots: Vec<SlotChange>,
    /// Accounts that changed.
    pub accounts: Vec<AccountChange>,
    /// What was taken out.
    pub purged: Vec<PurgeRecord>,
    /// Changes of slots that are not cached.
    pub skipped: Vec<SkippedDelta>,
    /// Bits of slots that are not cached.
    pub skipped_masks: Vec<SkippedMask>,
    /// Changes of balances that are not cached.
    pub skipped_balances: Vec<SkippedBalanceDelta>,
    /// Fields of accounts that are not cached.
    pub skipped_accounts: Vec<SkippedAccountPatch>,
}

/// What a diff holds.
#[verifier::ext_equal]
pub struct DiffModel {
    /// Slots that changed.
    pub slots: Seq<SlotChange>,
    /// Accounts that changed.
    pub accounts: Seq<AccountChange>,
    /// What was taken out.
    pub purged: Seq<PurgeModel>,
    /// Changes of slots that are not cached.
    pub skipped: Seq<SkippedDelta>,
    /// Bits of slots that are not cached.
    pub skipped_masks: Seq<SkippedMask>,
    /// Changes of balances that are not cached.
    pub skipped_balances: Seq<SkippedBalanceDelta>,
    /// Fields of accounts that are not cached.
    pub skipped_accounts: Seq<(Address, PatchModel)>,
}

impl View for StateDiff {
    type V = DiffModel;

    open spec fn view(&self) -> DiffModel {
        DiffModel {
            slots: self.slots@,
            accounts: self.accounts@,
            purged: self.purged@.map_values(|record: PurgeRecord| record@),
            skipped: self.skipped@,
            skipped_masks: self.skipped_masks@,
            skipped_balances: self.skipped_balances@,
            skipped_accounts: self.skipped_accounts@.map_values(
                |skipped: SkippedAccountPatch| skipped@,
            ),
        }
    }
}

impl DiffModel {
    /// Nothing.
    pub open spec fn none() -> Self {
        DiffModel {
            slots: Seq::empty(),
            accounts: Seq::empty(),
            purged: Seq::empty(),
            skipped: Seq::empty(),
            skipped_masks: Seq::empty(),
            skipped_balances: Seq::empty(),
            skipped_accounts: Seq::empty(),
        }
    }

    /// Both, in order.
    pub open spec fn merged(self, later: Self) -> Self {
        DiffModel {
            slots: self.slots + later.slots,
            accounts: self.accounts + later.accounts,
            purged: self.purged + later.purged,
            skipped: self.skipped + later.skipped,
            skipped_masks: self.skipped_masks + later.skipped_masks,
            skipped_balances: self.skipped_balances + later.skipped_balances,
            skipped_accounts: self.skipped_accounts + later.skipped_accounts,
        }
    }

    /// One slot, where it changed.
    pub open spec fn of_slot(address: Address, slot: U256, old: U256, new: U256) -> Self {
        if old != new {
            DiffModel { slots: seq![SlotChange { address, slot, old, new }], ..DiffModel::none() }
        } else {
            DiffModel::none()
        }
    }

    /// One account, where it changed.
    pub open spec fn of_account(change: AccountChange) -> Self {
        if change.is_none() {
            DiffModel::none()
        } else {
            DiffModel { accounts: seq![change], ..DiffModel::none() }
        }
    }
}

impl Default for StateDiff {
    fn default() -> (r: Self)
        ensures
            r@ == DiffModel::none(),
    {
        let r = StateDiff {
            slots: Vec::new(),
            accounts: Vec::new(),
            purged: Vec::new(),
            skipped: Vec::new(),
            skipped_masks: Vec::new(),
            skipped_balances: Vec::new(),
            skipped_accounts: Vec::new(),
        };
        assert(r@ =~= DiffModel::none());
        r
    }
}

impl StateDiff {
    /// Adds what later updates changed.
    pub fn merge(&mut self, later: StateDiff)
        ensures
            final(self)@ == old(self)@.merged(later@),
    {
        let mut later = later;
        let ghost added = later@;
        let ghost before = *self;
        let ghost from = later;
        self.slots.append(&mut later.slots);
        self.accounts.append(&mut later.accounts);
        self.purged.append(&mut later.purged);
        self.skipped.append(&mut later.skipped);
        self.skipped_masks.append(&mut later.skipped_masks);
        self.skipped_balances.append(&mut later.skipped_balances);
        self.skipped_accounts.append(&mut later.skipped_accounts);
        proof {
            assert(self.purged@ == before.purged@ + from.purged@);
            assert(self@.purged =~= before@.purged + added.purged);
            assert(self@.skipped_accounts =~= before@.skipped_accounts + added.skipped_accounts);
            assert(self@ =~= before@.merged(added));
        }
    }

    /// Whether something was skipped.
    pub fn has_skipped(&self) -> (r: bool)
        ensures
            r == (self@.skipped.len() > 0 || self@.skipped_masks.len() > 0
                || self@.skipped_balances.len() > 0 || self@.skipped_accounts.len() > 0),
    {
        self.skipped.len() > 0 || self.skipped_masks.len() > 0 || self.skipped_balances.len() > 0
            || self.skipped_accounts.len() > 0
    }
}

impl LayersModel {
    /// The state after one update.
    pub open spec fn updated(self, update: UpdateModel) -> Self {
        match update {
            UpdateModel::Slot { address, slot, value } => self.with_slot(address, slot, value),
            UpdateModel::SlotDelta { address, slot, delta } => match self.slot(address, slot) {
                Some(current) => self.with_slot(address, slot, delta.spec_apply(current)),
                None => self,
            },
            UpdateModel::SlotMasked { address, slot, mask, value } => match self.slot(
                address,
                slot,
            ) {
                Some(current) => self.with_slot(address, slot, current.spec_masked(mask, value)),
                None => self,
            },
            UpdateModel::BalanceDelta { address, delta } => match self.info(address) {
                Some(info) => self.with_info(
                    address,
                    InfoModel { balance: delta.spec_apply(info.balance), ..info },
                ),
                None => self,
            },
            UpdateModel::Account { address, patch, upsert } => match self.info(address) {
                Some(info) => if change_between(address, info, patch.applied(info)).is_none() {
                    self
                } else {
                    self.with_info(address, patch.applied(info))
                },
                None => if upsert {
                    self.with_info(address, patch.applied(InfoModel::fresh()))
                } else {
                    self
                },
            },
            UpdateModel::Purge { address, scope } => match scope {
                ScopeModel::Account => self.without_account(address),
                ScopeModel::AllStorage => self.without_storage(address),
                ScopeModel::Slots(slots) => self.without_slots(address, slots.to_set()),
            },
        }
    }

    /// What one update changes and skips.
    pub open spec fn update_diff(self, update: UpdateModel) -> DiffModel {
        match update {
            UpdateModel::Slot { address, slot, value } => DiffModel::of_slot(
                address,
                slot,
                self.slot_or_zero(address, slot),
                value,
            ),
            UpdateModel::SlotDelta { address, slot, delta } => match self.slot(address, slot) {
                Some(current) => DiffModel::of_slot(
                    address,
                    slot,
                    current,
                    delta.spec_apply(current),
                ),
                None => DiffModel {
                    skipped: seq![SkippedDelta { address, slot, delta }],
                    ..DiffModel::none()
                },
            },
            UpdateModel::SlotMasked { address, slot, mask, value } => match self.slot(
                address,
                slot,
            ) {
                Some(current) => DiffModel::of_slot(
                    address,
                    slot,
                    current,
                    current.spec_masked(mask, value),
                ),
                None => DiffModel {
                    skipped_masks: seq![SkippedMask { address, slot, mask, value }],
                    ..DiffModel::none()
                },
            },
            UpdateModel::BalanceDelta { address, delta } => match self.info(address) {
                Some(info) => DiffModel::of_account(
                    change_between(
                        address,
                        info,
                        InfoModel { balance: delta.spec_apply(info.balance), ..info },
                    ),
                ),
                None => DiffModel {
                    skipped_balances: seq![SkippedBalanceDelta { address, delta }],
                    ..DiffModel::none()
                },
            },
            UpdateModel::Account { address, patch, upsert } => match self.info(address) {
                Some(info) => DiffModel::of_account(
                    change_between(address, info, patch.applied(info)),
                ),
                None => if upsert {
                    DiffModel::of_account(
                        change_between(
                            address,
                            InfoModel::fresh(),
                            patch.applied(InfoModel::fresh()),
                        ),
                    )
                } else if patch.is_empty() {
                    DiffModel::none()
                } else {
                    DiffModel { skipped_accounts: seq![(address, patch)], ..DiffModel::none() }
                },
            },
            UpdateModel::Purge { address, scope } => DiffModel {
                purged: seq![
                    PurgeModel {
                        address,
                        scope,
                        slots_removed: (slots_at(self.storage, address).len() - slots_at(
                            self.updated(update).storage,
                            address,
                        ).len()) as nat,
                        account_removed: scope is Account && (self.overlay.contains_key(address)
                            || self.accounts.contains_key(address)),
                    },
                ],
                ..DiffModel::none()
            },
        }
    }

    /// Whether one update writes to the backend.
    pub open spec fn update_writes(self, update: UpdateModel) -> bool {
        match update {
            UpdateModel::Slot { .. } => true,
            UpdateModel::SlotDelta { address, slot, .. } => self.slot(address, slot) is Some,
            UpdateModel::SlotMasked { address, slot, .. } => self.slot(address, slot) is Some,
            UpdateModel::BalanceDelta { address, .. } => self.info(address) is Some,
            UpdateModel::Account { address, patch, upsert } => match self.info(address) {
                Some(info) => !change_between(address, info, patch.applied(info)).is_none(),
                None => upsert,
            },
            UpdateModel::Purge { .. } => true,
        }
    }

    /// What a simulation reads from a slot where nothing is fetched.
    pub open spec fn slot_or_zero(self, address: Address, slot: U256) -> U256 {
        match self.slot(address, slot) {
            Some(value) => value,
            None => U256::spec_zero(),
        }
    }

    /// The state after several updates, in order.
    pub open spec fn updated_all(self, updates: Seq<UpdateModel>) -> Self
        decreases updates.len(),
    {
        if updates.len() == 0 {
            self
        } else {
            self.updated_all(updates.drop_last()).updated(updates.last())
        }
    }

    /// What several updates change and skip, each seeing what those before it
    /// did.
    pub open spec fn update_diff_all(self, updates: Seq<UpdateModel>) -> DiffModel
        decreases updates.len(),
    {
        if updates.len() == 0 {
            DiffModel::none()
        } else {
            self.update_diff_all(updates.drop_last()).merged(
                self.updated_all(updates.drop_last()).update_diff(updates.last()),
            )
        }
    }
}

/// An update touches the backend of its own account alone, and only where it
/// writes.
pub proof fn lemma_update_is_local(layers: LayersModel, update: UpdateModel)
    ensures
        forall|a: Address|
            a != update.subject() ==> #[trigger] lookup(layers.updated(update).accounts, a)
                == lookup(layers.accounts, a),
        forall|a: Address|
            a != update.subject() ==> #[trigger] lookup(layers.updated(update).storage, a)
                == lookup(layers.storage, a),
        !layers.update_writes(update) ==> layers.updated(update) == layers,
{
}

impl Layers {
    /// Writes the new value of a slot through, and reports it where it differs.
    fn apply_slot_value(
        &mut self,
        address: Address,
        slot: U256,
        current: U256,
        new: U256,
        diff: &mut StateDiff,
    )
        ensures
            final(self)@ == old(self)@.with_slot(address, slot, new),
            final(diff)@ == old(diff)@.merged(DiffModel::of_slot(address, slot, current, new)),
    {
        self.write_slot_through(address, slot, new);
        if current != new {
            diff.slots.push(SlotChange { address, slot, old: current, new });
        }
        assert(diff@ =~= old(diff)@.merged(DiffModel::of_slot(address, slot, current, new)));
    }

    /// Reports what differs between two accounts, where something does.
    fn report_account(change: AccountChange, diff: &mut StateDiff) -> (changed: bool)
        ensures
            changed == !change.is_none(),
            final(diff)@ == old(diff)@.merged(DiffModel::of_account(change)),
    {
        let changed: bool = change.balance.is_some() || change.nonce.is_some()
            || change.code_hash.is_some();
        if changed {
            diff.accounts.push(change);
        }
        assert(diff@ =~= old(diff)@.merged(DiffModel::of_account(change)));
        changed
    }

    /// Applies a relative balance change.
    fn apply_balance_delta(&mut self, address: Address, delta: SlotDelta, diff: &mut StateDiff) -> (
    written: bool)
        ensures
            ({
                let update = UpdateModel::BalanceDelta { address, delta };
                &&& final(self)@ == old(self)@.updated(update)
                &&& final(diff)@ == old(diff)@.merged(old(self)@.update_diff(update))
                &&& written == old(self)@.update_writes(update)
            }),
    {
        match self.loaded_account_info(address) {
            Some(info) => {
                let mut new = info.clone();
                new.balance = delta.apply(info.balance);
                let change = AccountChange::between(address, &info, &new);
                self.write_account_info_through(address, new);
                Self::report_account(change, diff);
                true
            },
            None => {
                diff.skipped_balances.push(SkippedBalanceDelta { address, delta });
                assert(diff@ =~= old(diff)@.merged(
                    old(self)@.update_diff(UpdateModel::BalanceDelta { address, delta }),
                ));
                false
            },
        }
    }

    /// Applies a patch.
    fn apply_account_patch(
        &mut self,
        address: Address,
        patch: &AccountPatch,
        upsert: bool,
        diff: &mut StateDiff,
    ) -> (written: bool)
        ensures
            ({
                let update = UpdateModel::Account { address, patch: patch@, upsert };
                &&& final(self)@ == old(self)@.updated(update)
                &&& final(diff)@ == old(diff)@.merged(old(self)@.update_diff(update))
                &&& written == old(self)@.update_writes(update)
            }),
    {
        let ghost update = UpdateModel::Account { address, patch: patch@, upsert };
        let cached: Option<AccountInfo> = self.loaded_account_info(address);
        let created: bool = cached.is_none();
        let info: AccountInfo = match cached {
            Some(info) => info,
            None => {
                if !upsert {
                    if !account_patch_is_empty(patch) {
                        diff.skipped_accounts.push(
                            SkippedAccountPatch { address, patch: patch.clone() },
                        );
                    }
                    assert(diff@ =~= old(diff)@.merged(old(self)@.update_diff(update)));
                    return false;
                }
                AccountInfo::default()
            },
        };
        let new: AccountInfo = patched_info(&info, patch);
        let change = AccountChange::between(address, &info, &new);
        let changed: bool = Self::report_account(change, diff);
        if changed || created {
            self.write_account_info_through(address, new);
        }
        changed || created
    }

    /// Takes something out of the cache.
    fn apply_purge(&mut self, address: Address, scope: &PurgeScope) -> (r: PurgeRecord)
        ensures
            ({
                let update = UpdateModel::Purge { address, scope: scope@ };
                &&& final(self)@ == old(self)@.updated(update)
                &&& old(self)@.update_diff(update).purged == seq![r@]
            }),
    {
        let ghost update = UpdateModel::Purge { address, scope: scope@ };
        let r = match scope {
            PurgeScope::Account => {
                let (slots_removed, account_removed) = self.purge_account(address);
                PurgeRecord { address, scope: PurgeScope::Account, slots_removed, account_removed }
            },
            PurgeScope::AllStorage => {
                let slots_removed: usize = self.purge_storage(address);
                PurgeRecord {
                    address,
                    scope: PurgeScope::AllStorage,
                    slots_removed,
                    account_removed: false,
                }
            },
            PurgeScope::Slots(slots) => {
                let slots_removed: usize = self.purge_slots(address, slots.as_slice());
                PurgeRecord { address, scope: scope.copy(), slots_removed, account_removed: false }
            },
        };
        proof {
            let removed = slots_at(old(self)@.storage, address).len() - slots_at(
                self@.storage,
                address,
            ).len();
            assert(r@.slots_removed == removed);
            assert(old(self)@.update_diff(update).purged =~= seq![r@]);
        }
        r
    }

    /// Applies one update and adds to `diff` what it changed and skipped. The
    /// result tells whether the backend was written.
    pub fn apply_update(&mut self, update: &StateUpdate, diff: &mut StateDiff) -> (written: bool)
        ensures
            final(self)@ == old(self)@.updated(update@),
            final(diff)@ == old(diff)@.merged(old(self)@.update_diff(update@)),
            written == old(self)@.update_writes(update@),
    {
        match update {
            StateUpdate::Slot { address, slot, value } => {
                let old_value: U256 = match self.cached_storage_value(*address, *slot) {
                    Some(value) => value,
                    None => U256::zero(),
                };
                self.apply_slot_value(*address, *slot, old_value, *value, diff);
                true
            },
            StateUpdate::SlotDelta { address, slot, delta } => match self.cached_storage_value(
                *address,
                *slot,
            ) {
                Some(current) => {
                    self.apply_slot_value(*address, *slot, current, delta.apply(current), diff);
                    true
                },
                None => {
                    diff.skipped.push(
                        SkippedDelta { address: *address, slot: *slot, delta: *delta },
                    );
                    assert(diff@ =~= old(diff)@.merged(old(self)@.update_diff(update@)));
                    false
                },
            },
            StateUpdate::SlotMasked { address, slot, mask, value } => {
                match self.cached_storage_value(*address, *slot) {
                    Some(current) => {
                        let new: U256 = current.masked(*mask, *value);
                        self.apply_slot_value(*address, *slot, current, new, diff);
                        true
                    },
                    None => {
                        diff.skipped_masks.push(
                            SkippedMask {
                                address: *address,
                                slot: *slot,
                                mask: *mask,
                                value: *value,
                            },
                        );
                        assert(diff@ =~= old(diff)@.merged(old(self)@.update_diff(update@)));
                        false
                    },
                }
            },
            StateUpdate::BalanceDelta { address, delta } => self.apply_balance_delta(
                *address,
                *delta,
                diff,
            ),
            StateUpdate::Account { address, patch } => self.apply_account_patch(
                *address,
                patch,
                false,
                diff,
            ),
            StateUpdate::AccountUpsert { address, patch } => self.apply_account_patch(
                *address,
                patch,
                true,
                diff,
            ),
            StateUpdate::Purge { address, scope } => {
                let ghost before = diff.purged@;
                let record = self.apply_purge(*address, scope);
                diff.purged.push(record);
                proof {
                    assert(diff@.purged =~= old(diff)@.purged.push(record@));
                    assert(diff@ =~= old(diff)@.merged(old(self)@.update_diff(update@)));
                }
                true
            },
        }
    }
}

/// Merging is associative, and merging nothing changes nothing.
pub proof fn lemma_merging(a: DiffModel, b: DiffModel, c: DiffModel)
    ensures
        a.merged(b).merged(c) == a.merged(b.merged(c)),
        a.merged(DiffModel::none()) == a,
        DiffModel::none().merged(a) == a,
{
    assert(a.merged(b).merged(c) =~= a.merged(b.merged(c)));
    assert(a.merged(DiffModel::none()) =~= a);
    assert(DiffModel::none().merged(a) =~= a);
}

/// Applying a batch is applying its parts one after the other: the state and
/// what is reported are the same.
pub proof fn law_batch_is_sequence(
    layers: LayersModel,
    first: Seq<UpdateModel>,
    second: Seq<UpdateModel>,
)
    ensures
        layers.updated_all(first + second) == layers.updated_all(first).updated_all(second),
        layers.update_diff_all(first + second) == layers.update_diff_all(first).merged(
            layers.updated_all(first).update_diff_all(second),
        ),
    decreases second.len(),
{
    if second.len() == 0 {
        assert(first + second =~= first);
        lemma_merging(layers.update_diff_all(first), DiffModel::none(), DiffModel::none());
    } else {
        assert((first + second).drop_last() =~= first + second.drop_last());
        assert((first + second).last() == second.last());
        law_batch_is_sequence(layers, first, second.drop_last());
        let a = layers.update_diff_all(first);
        let b = layers.updated_all(first).update_diff_all(second.drop_last());
        let c = layers.updated_all(first).updated_all(second.drop_last()).update_diff(
            second.last(),
        );
        lemma_merging(a, b, c);
    }
}

/// A slot reads what was last written to it, and no other slot reads anything
/// else for it.
pub proof fn law_slot_write_reads_back(
    layers: LayersModel,
    address: Address,
    slot: U256,
    value: U256,
    other_address: Address,
    other_slot: U256,
)
    ensures
        layers.updated(UpdateModel::Slot { address, slot, value }).slot(address, slot) == Some(
            value,
        ),
        (other_address, other_slot) != (address, slot) ==> layers.updated(
            UpdateModel::Slot { address, slot, value },
        ).slot(other_address, other_slot) == layers.slot(other_address, other_slot),
{
}

/// An update of a slot reports a change of exactly those slots that read
/// otherwise afterwards, with what they read before and after.
pub proof fn law_slot_changes_are_exact(
    layers: LayersModel,
    update: UpdateModel,
    address: Address,
    slot: U256,
)
    requires
        update is Slot || update is SlotDelta || update is SlotMasked,
    ensures
        ({
            let change = SlotChange {
                address,
                slot,
                old: layers.slot_or_zero(address, slot),
                new: layers.updated(update).slot_or_zero(address, slot),
            };
            layers.update_diff(update).slots.contains(change) <==> change.old != change.new
        }),
{
    let change = SlotChange {
        address,
        slot,
        old: layers.slot_or_zero(address, slot),
        new: layers.updated(update).slot_or_zero(address, slot),
    };
    let reported = layers.update_diff(update).slots;
    if change.old != change.new {
        assert(reported.len() == 1 && reported[0] == change);
    } else {
        assert forall|i: int| 0 <= i < reported.len() implies reported[i] != change by {}
    }
}

/// A relative update of what is not cached changes nothing and is reported.
pub proof fn law_cold_updates_are_skipped(layers: LayersModel, update: UpdateModel)
    requires
        match update {
            UpdateModel::SlotDelta { address, slot, .. } => layers.slot(address, slot) is None,
            UpdateModel::SlotMasked { address, slot, .. } => layers.slot(address, slot) is None,
            UpdateModel::BalanceDelta { address, .. } => layers.info(address) is None,
            UpdateModel::Account { address, patch, upsert } => layers.info(address) is None
                && !patch.is_empty() && !upsert,
            _ => false,
        },
    ensures
        layers.updated(update) == layers,
        ({
            let diff = layers.update_diff(update);
            diff.skipped.len() + diff.skipped_masks.len() + diff.skipped_balances.len()
                + diff.skipped_accounts.len() == 1
        }),
{
}

/// After an upsert the account is cached, whatever was patched, and has what was
/// patched.
pub proof fn law_upserts_create_accounts(layers: LayersModel, address: Address, patch: PatchModel)
    ensures
        ({
            let after = layers.updated(UpdateModel::Account { address, patch, upsert: true });
            &&& after.info(address) is Some
            &&& patch.balance matches Some(balance) ==> after.info(address)->0.balance == balance
            &&& patch.nonce matches Some(nonce) ==> after.info(address)->0.nonce == nonce
        }),
{
}

/// What was purged is no longer cached: nothing of an account, no slot of its
/// storage, none of the slots named. An account that the overlay knows as
/// cleared goes on reading zero from its slots.
pub proof fn law_purged_state_is_gone(layers: LayersModel, address: Address, slot: U256)
    ensures
        ({
            let gone = layers.updated(
                UpdateModel::Purge { address, scope: ScopeModel::Account },
            );
            gone.info(address) is None && gone.slot(address, slot) is None
        }),
        ({
            let gone = layers.updated(
                UpdateModel::Purge { address, scope: ScopeModel::AllStorage },
            );
            let cleared = layers.overlay.contains_key(address)
                && layers.overlay[address].account_state.spec_clears_storage();
            gone.slot(address, slot) == if cleared {
                Some(U256::spec_zero())
            } else {
                None
            }
        }),
        ({
            let gone = layers.updated(
                UpdateModel::Purge { address, scope: ScopeModel::Slots(seq![slot]) },
            );
            let cleared = layers.overlay.contains_key(address)
                && layers.overlay[address].account_state.spec_clears_storage();
            gone.slot(address, slot) == if cleared {
                Some(U256::spec_zero())
            } else {
                None
            }
        }),
{
    assert(seq![slot][0] == slot);
    assert(seq![slot].to_set().contains(slot));
}

} // verus!
