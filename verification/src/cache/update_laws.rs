//! What targeted writes do to what is read afterwards.

use crate::cache::account::InfoModel;
use crate::cache::layers::{lookup, slots_at, LayersModel};
use crate::cache::state_update::{
    AccountChange, DiffModel, PatchModel, ScopeModel, SlotChange, SlotDelta, UpdateModel,
};
use crate::cache::writes::slot_updates;
use crate::foreign::{code_hash_of, spec_keccak_empty};
use crate::primitives::{pow_256, Address, B256, U256};
use vstd::prelude::*;

verus! {

/// Whether an account holds code under the hash of no code. A write through the
/// overlay gives such code its own hash.
pub open spec fn is_misfiled(info: InfoModel) -> bool {
    info.has_code() && info.code_hash == spec_keccak_empty()
}

/// Whether a field of a change tells how a value became another: where it names two
/// values, the first was there and the second is; where it names none, the value is
/// as it was.
pub open spec fn tells<T>(field: Option<(T, T)>, before: T, after: T) -> bool {
    match field {
        Some((was, is)) => was != is && before == was && after == is,
        None => after == before,
    }
}

/// Whether every code that an update brings has a hash of its own. A hash of zero
/// would read as that of no code.
pub open spec fn has_sound_hash(update: UpdateModel) -> bool {
    update is Account ==> (update->patch.code matches Some(code) ==> B256::spec_from(
        code_hash_of(code),
    )@ != 0)
}

/// The sum of two words, stopping at the largest.
pub open spec fn is_raised(after: U256, before: U256, by: U256) -> bool {
    if before@ + by@ < pow_256() {
        after@ == before@ + by@
    } else {
        after@ == pow_256() - 1
    }
}

/// The difference of two words, stopping at zero.
pub open spec fn is_lowered(after: U256, before: U256, by: U256) -> bool {
    if by@ <= before@ {
        after@ == before@ - by@
    } else {
        after@ == 0
    }
}

/// What a delta does to a word.
pub open spec fn is_shifted(after: U256, before: U256, delta: SlotDelta) -> bool {
    match delta {
        SlotDelta::Add(by) => is_raised(after, before, by),
        SlotDelta::Sub(by) => is_lowered(after, before, by),
    }
}

/// The word of a number has that number.
proof fn lemma_word_of(value: nat)
    requires
        value < pow_256(),
    ensures
        U256::spec_from(value)@ == value,
{
}

/// A delta adds or takes away its amount; it stops at the largest word and at zero.
pub proof fn law_deltas_saturate(value: U256, delta: SlotDelta)
    ensures
        is_shifted(delta.spec_apply(value), value, delta),
{
    match delta {
        SlotDelta::Add(by) => {
            if value@ + by@ < pow_256() {
                lemma_word_of((value@ + by@) as nat);
            } else {
                lemma_word_of((pow_256() - 1) as nat);
            }
        },
        SlotDelta::Sub(by) => {
            if by@ <= value@ {
                lemma_word_of((value@ - by@) as nat);
            } else {
                lemma_word_of(0);
            }
        },
    }
}

/// After an update of a cached account, the account reads as the diff tells: each
/// field that is reported was the first value before and is the second value after,
/// and every other field is as it was. An update that reports nothing changes no
/// field. The code under a hash that was not reported changes only where the patch
/// brings code.
pub proof fn law_account_updates_are_told(
    layers: LayersModel,
    update: UpdateModel,
    address: Address,
    before: InfoModel,
)
    requires
        update is BalanceDelta || update is Account,
        update.subject() == address,
        layers.info(address) == Some(before),
    ensures
        layers.updated(update).info(address) is Some,
        ({
            let after = layers.updated(update).info(address)->0;
            let told = layers.update_diff(update).accounts;
            let sound = !is_misfiled(before) && has_sound_hash(update);
            &&& told.len() <= 1
            &&& told.len() == 1 ==> {
                &&& told[0].address == address
                &&& tells(told[0].balance, before.balance, after.balance)
                &&& tells(told[0].nonce, before.nonce, after.nonce)
                &&& sound ==> tells(told[0].code_hash, before.code_hash, after.code_hash)
            }
            &&& told.len() == 0 ==> {
                &&& after.balance == before.balance
                &&& after.nonce == before.nonce
                &&& sound ==> after.code_hash == before.code_hash
            }
            &&& update is BalanceDelta ==> after.code == before.code && after.nonce
                == before.nonce && (sound ==> after.code_hash == before.code_hash)
            &&& update is Account && update->patch.code is None ==> after.code == before.code
        }),
{
}

/// A balance delta adds to or takes from the balance that is read, stopping at the
/// largest word and at zero, and tells of it exactly where the balance changed.
pub proof fn law_balance_deltas_add_up(layers: LayersModel, address: Address, delta: SlotDelta)
    requires
        layers.info(address) is Some,
    ensures
        ({
            let update = UpdateModel::BalanceDelta { address, delta };
            let before = layers.info(address)->0;
            let after = layers.updated(update).info(address);
            let told = layers.update_diff(update).accounts;
            &&& after is Some
            &&& is_shifted(after->0.balance, before.balance, delta)
            &&& after->0.nonce == before.nonce
            &&& after->0.balance != before.balance <==> told.len() == 1
            &&& told.len() == 1 ==> told[0] == (AccountChange {
                address,
                balance: Some((before.balance, after->0.balance)),
                nonce: None,
                code_hash: None,
            })
        }),
{
    law_deltas_saturate(layers.info(address)->0.balance, delta);
}

/// A patch of a cached account, or an upsert, is read back: each field that it brings
/// reads as brought, and each field that it does not bring reads as before. An
/// account that was not cached has nothing before: no balance, no nonce and no code.
pub proof fn law_patches_are_read_back(
    layers: LayersModel,
    address: Address,
    patch: PatchModel,
    upsert: bool,
)
    requires
        layers.info(address) is Some || upsert,
    ensures
        ({
            let update = UpdateModel::Account { address, patch, upsert };
            let before = layers.info(address);
            let after = layers.updated(update).info(address);
            &&& after is Some
            &&& patch.balance matches Some(balance) ==> after->0.balance == balance
            &&& patch.nonce matches Some(nonce) ==> after->0.nonce == nonce
            &&& patch.code is Some && has_sound_hash(update) && (before is Some ==> !is_misfiled(
                before->0,
            )) ==> after->0.code_hash@ == B256::spec_from(code_hash_of(patch.code->0))@
            &&& patch.code is Some && (before is None || B256::spec_from(
                code_hash_of(patch.code->0),
            ) != before->0.code_hash) ==> after->0.code == patch.code
            &&& before matches Some(info) ==> {
                &&& patch.balance is None ==> after->0.balance == info.balance
                &&& patch.nonce is None ==> after->0.nonce == info.nonce
                &&& patch.code is None ==> after->0.code == info.code
                &&& patch.code is None && !is_misfiled(info) ==> after->0.code_hash
                    == info.code_hash
            }
            &&& before is None ==> {
                &&& patch.balance is None ==> after->0.balance@ == 0
                &&& patch.nonce is None ==> after->0.nonce == 0
                &&& patch.code is None ==> after->0.code_hash == spec_keccak_empty()
                    && !after->0.has_code()
            }
        }),
{
}

/// Whether nothing is read otherwise but the account itself.
pub open spec fn only_account_differs(
    before: LayersModel,
    after: LayersModel,
    address: Address,
) -> bool {
    &&& forall|a: Address| a != address ==> #[trigger] after.info(a) == before.info(a)
    &&& forall|a: Address, s: U256| #[trigger] after.slot(a, s) == before.slot(a, s)
}

/// Whether nothing is read otherwise but one slot.
pub open spec fn only_slot_differs(
    before: LayersModel,
    after: LayersModel,
    address: Address,
    slot: U256,
) -> bool {
    &&& forall|a: Address| #[trigger] after.info(a) == before.info(a)
    &&& forall|a: Address, s: U256|
        (a, s) != (address, slot) ==> #[trigger] after.slot(a, s) == before.slot(a, s)
}

/// An update of an account changes what is read of no other account and of no slot,
/// and an update of a slot changes what is read of no other slot and of no account.
/// (An account that the overlay knew not to exist is another matter: once an upsert
/// makes it exist, its slots are those of the backend.)
pub proof fn law_updates_stay_where_they_belong(layers: LayersModel, update: UpdateModel)
    ensures
        update is BalanceDelta || (update is Account && (layers.info(update.subject()) is Some
            || !layers.overlay.contains_key(update.subject()))) ==> only_account_differs(
            layers,
            layers.updated(update),
            update.subject(),
        ),
        update matches UpdateModel::Slot { address, slot, .. } ==> only_slot_differs(
            layers,
            layers.updated(update),
            address,
            slot,
        ),
        update matches UpdateModel::SlotDelta { address, slot, .. } ==> only_slot_differs(
            layers,
            layers.updated(update),
            address,
            slot,
        ),
        update matches UpdateModel::SlotMasked { address, slot, .. } ==> only_slot_differs(
            layers,
            layers.updated(update),
            address,
            slot,
        ),
        ({
            let diff = layers.update_diff(update);
            &&& update is BalanceDelta || update is Account ==> diff.slots.len() == 0
                && diff.purged.len() == 0
            &&& update is Slot || update is SlotDelta || update is SlotMasked
                ==> diff.accounts.len() == 0 && diff.purged.len() == 0
            &&& update is Purge ==> diff.accounts.len() == 0 && diff.slots.len() == 0
        }),
{
}

/// A delta of a cached slot adds to or takes from its value, stopping at the largest
/// word and at zero.
pub proof fn law_slot_deltas_add_up(
    layers: LayersModel,
    address: Address,
    slot: U256,
    delta: SlotDelta,
)
    requires
        layers.slot(address, slot) is Some,
    ensures
        ({
            let update = UpdateModel::SlotDelta { address, slot, delta };
            let before = layers.slot(address, slot)->0;
            let after = layers.updated(update).slot(address, slot);
            let told = layers.update_diff(update).slots;
            &&& after is Some
            &&& is_shifted(after->0, before, delta)
            &&& told == if after->0 != before {
                seq![SlotChange { address, slot, old: before, new: after->0 }]
            } else {
                Seq::empty()
            }
        }),
{
    law_deltas_saturate(layers.slot(address, slot)->0, delta);
}

/// A masked write to a cached slot sets the bits under the mask to those of the
/// value, and leaves the others as they were.
pub proof fn law_masked_writes_keep_the_rest(
    layers: LayersModel,
    address: Address,
    slot: U256,
    mask: U256,
    value: U256,
)
    requires
        layers.slot(address, slot) is Some,
    ensures
        ({
            let update = UpdateModel::SlotMasked { address, slot, mask, value };
            let before = layers.slot(address, slot)->0;
            let after = layers.updated(update).slot(address, slot);
            let told = layers.update_diff(update).slots;
            &&& after is Some
            &&& after->0.hi & mask.hi == value.hi & mask.hi
            &&& after->0.lo & mask.lo == value.lo & mask.lo
            &&& after->0.hi & !mask.hi == before.hi & !mask.hi
            &&& after->0.lo & !mask.lo == before.lo & !mask.lo
            &&& told == if after->0 != before {
                seq![SlotChange { address, slot, old: before, new: after->0 }]
            } else {
                Seq::empty()
            }
        }),
{
    let before = layers.slot(address, slot)->0;
    lemma_masked_limb(before.hi, mask.hi, value.hi);
    lemma_masked_limb(before.lo, mask.lo, value.lo);
}

/// Half of a masked word.
proof fn lemma_masked_limb(before: u128, mask: u128, value: u128)
    ensures
        ((before & !mask) | (value & mask)) & mask == value & mask,
        ((before & !mask) | (value & mask)) & !mask == before & !mask,
{
    assert(((before & !mask) | (value & mask)) & mask == value & mask) by (bit_vector);
    assert(((before & !mask) | (value & mask)) & !mask == before & !mask) by (bit_vector);
}

/// What is written goes to the backend, whether the overlay holds the account or
/// not; and no update but a purge takes an account into the overlay or out of it.
pub proof fn law_writes_reach_the_backend(layers: LayersModel, update: UpdateModel)
    requires
        layers.update_writes(update),
        !(update is Purge),
    ensures
        layers.updated(update).overlay.dom() == layers.overlay.dom(),
        match update {
            UpdateModel::Slot { address, slot, .. } => lookup(
                slots_at(layers.updated(update).storage, address),
                slot,
            ) == layers.updated(update).slot(address, slot),
            UpdateModel::SlotDelta { address, slot, .. } => lookup(
                slots_at(layers.updated(update).storage, address),
                slot,
            ) == layers.updated(update).slot(address, slot),
            UpdateModel::SlotMasked { address, slot, .. } => lookup(
                slots_at(layers.updated(update).storage, address),
                slot,
            ) == layers.updated(update).slot(address, slot),
            UpdateModel::BalanceDelta { address, .. } => {
                let kept = layers.updated(update).accounts;
                let read = layers.updated(update).info(address)->0;
                kept.contains_key(address) && kept[address].balance == read.balance
                    && kept[address].nonce == read.nonce && kept[address].code == read.code
            },
            UpdateModel::Account { address, .. } => {
                let kept = layers.updated(update).accounts;
                let read = layers.updated(update).info(address)->0;
                kept.contains_key(address) && kept[address].balance == read.balance
                    && kept[address].nonce == read.nonce && kept[address].code == read.code
            },
            UpdateModel::Purge { .. } => true,
        },
{
    assert(layers.updated(update).overlay.dom() =~= layers.overlay.dom());
}

/// An update writes nothing only where everything stays as it was, and where it
/// writes nothing it reports no change.
pub proof fn law_what_writes_nothing_changes_nothing(layers: LayersModel, update: UpdateModel)
    requires
        !layers.update_writes(update),
    ensures
        layers.updated(update) == layers,
        layers.update_diff(update).slots.len() == 0,
        layers.update_diff(update).accounts.len() == 0,
        layers.update_diff(update).purged.len() == 0,
{
}

/// What is skipped is told as it was asked: a relative update of a slot or a balance
/// that is not cached, and fields of an account that is not cached.
pub proof fn law_skips_are_told_as_asked(layers: LayersModel, update: UpdateModel)
    ensures
        ({
            let diff = layers.update_diff(update);
            &&& forall|i: int|
                0 <= i < diff.skipped.len() ==> update == (UpdateModel::SlotDelta {
                    address: (#[trigger] diff.skipped[i]).address,
                    slot: diff.skipped[i].slot,
                    delta: diff.skipped[i].delta,
                })
            &&& forall|i: int|
                0 <= i < diff.skipped_masks.len() ==> update == (UpdateModel::SlotMasked {
                    address: (#[trigger] diff.skipped_masks[i]).address,
                    slot: diff.skipped_masks[i].slot,
                    mask: diff.skipped_masks[i].mask,
                    value: diff.skipped_masks[i].value,
                })
            &&& forall|i: int|
                0 <= i < diff.skipped_balances.len() ==> update == (UpdateModel::BalanceDelta {
                    address: (#[trigger] diff.skipped_balances[i]).address,
                    delta: diff.skipped_balances[i].delta,
                })
            &&& forall|i: int|
                0 <= i < diff.skipped_accounts.len() ==> update == (UpdateModel::Account {
                    address: (#[trigger] diff.skipped_accounts[i]).0,
                    patch: diff.skipped_accounts[i].1,
                    upsert: false,
                })
            &&& update is SlotDelta && layers.slot(update.subject(), update->SlotDelta_slot) is None
                <==> diff.skipped.len() == 1
            &&& update is SlotMasked && layers.slot(
                update.subject(),
                update->SlotMasked_slot,
            ) is None <==> diff.skipped_masks.len() == 1
            &&& update is BalanceDelta && layers.info(update.subject()) is None
                <==> diff.skipped_balances.len() == 1
            &&& update is Account && !update->upsert && !(update->patch.balance is None
                && update->patch.nonce is None && update->patch.code is None) && layers.info(
                update.subject(),
            ) is None <==> diff.skipped_accounts.len() == 1
        }),
{
}

/// A purge touches nothing but what it names. Of an account, all of it goes; of its
/// storage, all slots go and the account stays; of some slots, those go and the others
/// and the account stay. Other accounts and their slots read as before.
pub proof fn law_purges_take_only_what_they_name(
    layers: LayersModel,
    address: Address,
    scope: ScopeModel,
    other: Address,
    slot: U256,
)
    ensures
        ({
            let gone = layers.updated(UpdateModel::Purge { address, scope });
            let cleared = layers.overlay.contains_key(address)
                && layers.overlay[address].account_state.spec_clears_storage();
            &&& other != address ==> gone.info(other) == layers.info(other) && gone.slot(
                other,
                slot,
            ) == layers.slot(other, slot)
            &&& scope is Account ==> gone.info(address) is None && gone.slot(address, slot) is None
                && !gone.overlay.contains_key(address) && !gone.accounts.contains_key(address)
                && !gone.storage.contains_key(address)
            &&& !(scope is Account) ==> gone.info(address) == layers.info(address)
            &&& scope is AllStorage ==> gone.slot(address, slot) == if cleared {
                Some(U256::spec_zero())
            } else {
                None
            }
            &&& scope matches ScopeModel::Slots(slots) ==> {
                &&& slots.contains(slot) ==> gone.slot(address, slot) == if cleared {
                    Some(U256::spec_zero())
                } else {
                    None
                }
                &&& !slots.contains(slot) ==> gone.slot(address, slot) == layers.slot(
                    address,
                    slot,
                )
            }
        }),
{
}

/// A purge is told once, with its account and its scope. It counts the slots that
/// the backend lost: every one it had of an account or of all its storage, and of
/// some slots those of them that it had. It tells an account as removed where all of
/// it was asked for and either layer held it.
pub proof fn law_purges_are_counted(layers: LayersModel, address: Address, scope: ScopeModel)
    requires
        slots_at(layers.storage, address).dom().finite(),
    ensures
        ({
            let told = layers.update_diff(UpdateModel::Purge { address, scope }).purged;
            let held = slots_at(layers.storage, address).dom();
            &&& told.len() == 1
            &&& told[0].address == address
            &&& told[0].scope == scope
            &&& !(scope is Slots) ==> told[0].slots_removed == held.len()
            &&& scope matches ScopeModel::Slots(slots) ==> told[0].slots_removed
                == held.intersect(slots.to_set()).len()
            &&& told[0].account_removed <==> scope is Account && layers.local_info(address) is Some
        }),
{
    let held = slots_at(layers.storage, address);
    let after = layers.updated(UpdateModel::Purge { address, scope });
    let left = slots_at(after.storage, address);
    match scope {
        ScopeModel::Slots(slots) => {
            let named = slots.to_set();
            assert(left.dom() =~= held.dom().difference(named));
            lemma_split(held.dom(), named);
        },
        _ => {
            assert(left.dom() =~= Set::empty());
        },
    }
}

/// A finite set is as large as its two parts.
proof fn lemma_split<A>(all: Set<A>, part: Set<A>)
    requires
        all.finite(),
    ensures
        all.len() == all.intersect(part).len() + all.difference(part).len(),
    decreases all.len(),
{
    if all.len() == 0 {
        assert(all.intersect(part) =~= Set::empty());
        assert(all.difference(part) =~= Set::empty());
    } else {
        let a = all.choose();
        lemma_split(all.remove(a), part);
        if part.contains(a) {
            assert(all.intersect(part) =~= all.remove(a).intersect(part).insert(a));
            assert(all.difference(part) =~= all.remove(a).difference(part));
        } else {
            assert(all.intersect(part) =~= all.remove(a).intersect(part));
            assert(all.difference(part) =~= all.remove(a).difference(part).insert(a));
        }
    }
}

/// A batch of one update is that update, and an empty batch is nothing. Together with
/// batches being sequences this says what any batch does.
pub proof fn law_a_batch_of_one_is_the_update(layers: LayersModel, update: UpdateModel)
    ensures
        layers.updated_all(Seq::empty()) == layers,
        layers.update_diff_all(Seq::empty()) == DiffModel::none(),
        layers.updated_all(seq![update]) == layers.updated(update),
        layers.update_diff_all(seq![update]) == layers.update_diff(update),
{
    let one = seq![update];
    assert(one.drop_last() =~= Seq::empty());
    assert(layers.updated_all(one.drop_last()) == layers);
    assert(DiffModel::none().merged(layers.update_diff(update)) =~= layers.update_diff(update));
}

/// What is told of two batches holds all that was told of each, and in order: the
/// first batch first.
pub proof fn law_merged_diffs_lose_nothing(first: DiffModel, second: DiffModel)
    ensures
        first.merged(second).slots == first.slots + second.slots,
        first.merged(second).accounts == first.accounts + second.accounts,
        first.merged(second).purged == first.purged + second.purged,
        first.merged(second).skipped == first.skipped + second.skipped,
        first.merged(second).skipped_masks == first.skipped_masks + second.skipped_masks,
        first.merged(second).skipped_balances == first.skipped_balances + second.skipped_balances,
        first.merged(second).skipped_accounts == first.skipped_accounts + second.skipped_accounts,
{
}

/// Whatever the backend holds of an account that the overlay has, it is not read: the
/// overlay's account and the slots written there are.
pub proof fn law_the_overlay_hides_the_backend(
    one: LayersModel,
    another: LayersModel,
    address: Address,
    slot: U256,
)
    requires
        one.overlay == another.overlay,
        one.overlay.contains_key(address),
    ensures
        one.info(address) == another.info(address),
        one.local_info(address) == another.local_info(address),
        one.local_info(address) == Some(one.overlay[address].info),
        one.overlay[address].account_state is NotExisting <==> one.info(address) is None,
        one.info(address) matches Some(info) ==> info.balance == one.overlay[address].info.balance
            && info.nonce == one.overlay[address].info.nonce && info.code
            == one.overlay[address].info.code,
        one.overlay[address].storage.contains_key(slot) ==> one.slot(address, slot) == Some(
            one.overlay[address].storage[slot],
        ) && another.slot(address, slot) == one.slot(address, slot),
        !one.overlay[address].storage.contains_key(slot) && (
        one.overlay[address].account_state is StorageCleared
            || one.overlay[address].account_state is NotExisting) ==> one.slot(address, slot)
            == Some(U256::spec_zero()),
        !one.overlay[address].storage.contains_key(slot) && (
        one.overlay[address].account_state is Touched
            || one.overlay[address].account_state is Untouched) ==> one.slot(address, slot)
            == lookup(slots_at(one.storage, address), slot),
{
}

/// Where the overlay has nothing of an account, it reads as the backend holds it; a
/// zero hash of code reads as that of no code.
pub proof fn law_the_backend_is_read_elsewhere(layers: LayersModel, address: Address, slot: U256)
    requires
        !layers.overlay.contains_key(address),
    ensures
        layers.slot(address, slot) == lookup(slots_at(layers.storage, address), slot),
        layers.local_info(address) == lookup(layers.accounts, address),
        layers.info(address) is Some <==> layers.accounts.contains_key(address),
        layers.info(address) matches Some(info) ==> {
            let held = layers.accounts[address];
            &&& info.balance == held.balance
            &&& info.nonce == held.nonce
            &&& info.code == held.code
            &&& held.code_hash@ != 0 ==> info.code_hash == held.code_hash
            &&& held.code_hash@ == 0 ==> info.code_hash == spec_keccak_empty()
        },
{
}

/// Whether an item is the last value for a slot.
pub open spec fn is_last_value(
    results: Seq<(Address, U256, U256)>,
    address: Address,
    slot: U256,
    at: int,
) -> bool {
    &&& 0 <= at < results.len()
    &&& results[at].0 == address && results[at].1 == slot
    &&& forall|later: int|
        at < later < results.len() ==> !((#[trigger] results[later]).0 == address
            && results[later].1 == slot)
}

/// Once a batch of slots was written, each of them reads the value that came last for
/// it. Slots that are not in the batch, and all accounts, read as before.
pub proof fn law_slot_batches_are_read_back(
    layers: LayersModel,
    results: Seq<(Address, U256, U256)>,
    address: Address,
    slot: U256,
)
    ensures
        forall|at: int| #[trigger]
            is_last_value(results, address, slot, at) ==> layers.updated_all(
                slot_updates(results),
            ).slot(address, slot) == Some(results[at].2),
        (forall|i: int|
            0 <= i < results.len() ==> !((#[trigger] results[i]).0 == address && results[i].1
                == slot)) ==> layers.updated_all(slot_updates(results)).slot(address, slot)
            == layers.slot(address, slot),
        layers.updated_all(slot_updates(results)).info(address) == layers.info(address),
        layers.updated_all(slot_updates(results)).local_info(address) == layers.local_info(
            address,
        ),
    decreases results.len(),
{
    if results.len() == 0 {
        assert(slot_updates(results) =~= Seq::empty());
    } else {
        let fewer = results.drop_last();
        let last = results.len() - 1;
        law_slot_batches_are_read_back(layers, fewer, address, slot);
        assert(slot_updates(results).drop_last() =~= slot_updates(fewer));
        assert(slot_updates(results).last() == (UpdateModel::Slot {
            address: results[last].0,
            slot: results[last].1,
            value: results[last].2,
        }));
        assert forall|i: int| 0 <= i < fewer.len() implies #[trigger] fewer[i] == results[i] by {}
        assert forall|at: int| #[trigger]
            is_last_value(results, address, slot, at) implies layers.updated_all(
            slot_updates(results),
        ).slot(address, slot) == Some(results[at].2) by {
            if at < last {
                assert(!(results[last].0 == address && results[last].1 == slot));
                assert forall|later: int| at < later < fewer.len() implies !((
                #[trigger] fewer[later]).0 == address && fewer[later].1 == slot) by {
                    assert(!(results[later].0 == address && results[later].1 == slot));
                }
                assert(is_last_value(fewer, address, slot, at));
            }
        }
        if forall|i: int|
            0 <= i < results.len() ==> !((#[trigger] results[i]).0 == address && results[i].1
                == slot) {
            assert forall|i: int| 0 <= i < fewer.len() implies !((#[trigger] fewer[i]).0
                == address && fewer[i].1 == slot) by {
                assert(!(results[i].0 == address && results[i].1 == slot));
            }
            assert(!(results[last].0 == address && results[last].1 == slot));
        }
    }
}

} // verus!
