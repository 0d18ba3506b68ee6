//! What is read from saved files.

use crate::cache::account::InfoModel;
use crate::cache::checkpoint_files::{order_of, orders_after};
use crate::cache::durable_checkpoint::{
    opened, opened_against, sealed, OpenedModel, WriteCoordinator, CHECKPOINT_CHECKSUM_BYTES,
    CHECKPOINT_MAGIC, CHECKPOINT_VERSION,
};
use crate::cache::layers::lookup;
use crate::cache::payload::{address_in, hash_in, word_in};
use crate::cache::saved_state::{
    inline_codes, loadable_codes, paired_slots, with_saved_accounts, with_saved_storage,
    BinaryAccountInfo,
};
use crate::cache::versioned::{frame, unframed, version_bytes};
use crate::foreign::loadable_code;
use crate::primitives::{
    be_bytes, be_value, lemma_be_bytes_round_trip, lemma_be_value_round_trip,
    lemma_byte_base_values, Address, B256, U256,
};
use vstd::prelude::*;

verus! {

/// A file is taken for one of a kind and a version only where it was framed so: what is
/// read from it, framed again, is the file.
pub proof fn law_only_framed_files_are_read(data: Seq<u8>, magic: Seq<u8>, version: u32)
    requires
        magic.len() == 8,
    ensures
        unframed(data, magic, version) matches Some(payload) ==> data == frame(
            magic,
            version,
            payload,
        ),
        unframed(data, magic, version) is Some <==> exists|payload: Seq<u8>|
            data == #[trigger] frame(magic, version, payload),
{
    if let Some(payload) = unframed(data, magic, version) {
        assert(data =~= data.take(8) + data.subrange(8, 12) + data.skip(12));
    }
    if exists|payload: Seq<u8>| data == #[trigger] frame(magic, version, payload) {
        let payload = choose|payload: Seq<u8>| data == #[trigger] frame(magic, version, payload);
        assert(data.take(8) =~= magic);
        assert(data.subrange(8, 12) =~= version_bytes(version));
    }
}

/// A version is written with its lowest byte first.
pub proof fn law_versions_are_written_lowest_first(version: u32)
    ensures
        version_bytes(version).len() == 4,
        version_bytes(version)[0] + 256 * version_bytes(version)[1] + 65536 * version_bytes(
            version,
        )[2] + 16777216 * version_bytes(version)[3] == version,
{
}

/// A checkpoint is read only where it was sealed so: what is read from a file, sealed
/// again, is the file. A file too short for a checksum is none.
pub proof fn law_only_sealed_files_are_opened(data: Seq<u8>)
    ensures
        opened(data) matches OpenedModel::Payload(payload) ==> data == sealed(payload),
        data.len() < 32 ==> opened(data) is InvalidFormat,
{
    if data.len() >= CHECKPOINT_CHECKSUM_BYTES {
        let start = data.len() - CHECKPOINT_CHECKSUM_BYTES;
        let body = data.take(start);
        let tail = data.skip(start);
        if let OpenedModel::Payload(payload) = opened(data) {
            law_only_framed_files_are_read(body, CHECKPOINT_MAGIC@, CHECKPOINT_VERSION);
            lemma_be_value_round_trip(tail);
            assert(data =~= body + tail);
        }
    }
}

/// A checksum that is not the one in the file is told before anything else is looked at.
pub proof fn law_checksums_come_first(data: Seq<u8>, digest: nat)
    requires
        data.len() >= 32,
    ensures
        opened_against(data, digest) is ChecksumMismatch <==> digest != be_value(
            data.skip(data.len() - 32),
        ),
        opened_against(data, digest) matches OpenedModel::Payload(payload) ==> data.take(
            data.len() - 32,
        ) == frame(CHECKPOINT_MAGIC@, CHECKPOINT_VERSION, payload),
{
    let start = data.len() - CHECKPOINT_CHECKSUM_BYTES;
    law_only_framed_files_are_read(data.take(start), CHECKPOINT_MAGIC@, CHECKPOINT_VERSION);
}

/// Only the write that was announced last is let through: each announcement takes a
/// number of its own, one more than the last, and turns every earlier one away.
pub proof fn law_only_the_newest_write_is_let_through(before: WriteCoordinator, generation: u64)
    requires
        before.latest_generation < u64::MAX,
    ensures
        before.admits(generation) <==> generation == before.latest_generation,
        before.reserved().latest_generation == before.latest_generation + 1,
        generation <= before.latest_generation ==> !before.reserved().admits(generation),
{
}

/// Saved accounts are entered over those that are there: of several for one address the
/// last, without code, and every other account stays.
pub proof fn law_saved_accounts_are_entered(
    accounts: Map<Address, InfoModel>,
    saved: Seq<(Address, BinaryAccountInfo)>,
    address: Address,
)
    ensures
        forall|at: int|
            0 <= at < saved.len() && (#[trigger] saved[at]).0 == address && (forall|later: int|
                at < later < saved.len() ==> (#[trigger] saved[later]).0 != address) ==> {
                let now = with_saved_accounts(accounts, saved);
                &&& now.contains_key(address)
                &&& now[address].balance == saved[at].1.balance
                &&& now[address].nonce == saved[at].1.nonce
                &&& now[address].code_hash == saved[at].1.code_hash
                &&& now[address].code is None
            },
        (forall|i: int| 0 <= i < saved.len() ==> (#[trigger] saved[i]).0 != address) ==> lookup(
            with_saved_accounts(accounts, saved),
            address,
        ) == lookup(accounts, address),
    decreases saved.len(),
{
    if saved.len() > 0 {
        let fewer = saved.drop_last();
        let last = saved.len() - 1;
        assert(saved[last] == saved.last());
        law_saved_accounts_are_entered(accounts, fewer, address);
        assert forall|i: int| 0 <= i < fewer.len() implies #[trigger] fewer[i] == saved[i] by {}
        assert forall|at: int|
            0 <= at < saved.len() && (#[trigger] saved[at]).0 == address && (forall|later: int|
                at < later < saved.len() ==> (#[trigger] saved[later]).0 != address) implies {
            let now = with_saved_accounts(accounts, saved);
            &&& now.contains_key(address)
            &&& now[address].balance == saved[at].1.balance
            &&& now[address].nonce == saved[at].1.nonce
            &&& now[address].code_hash == saved[at].1.code_hash
            &&& now[address].code is None
        } by {
            if at < last {
                assert(saved[last].0 != address);
                assert(fewer[at].0 == address);
                assert forall|later: int| at < later < fewer.len() implies (
                #[trigger] fewer[later]).0 != address by {
                    assert(saved[later].0 != address);
                }
            }
        }
        if forall|i: int| 0 <= i < saved.len() ==> (#[trigger] saved[i]).0 != address {
            assert forall|i: int| 0 <= i < fewer.len() implies (#[trigger] fewer[i]).0
                != address by {
                assert(saved[i].0 != address);
            }
            assert(saved[last].0 != address);
        }
    }
}

/// Saved storage of an account takes the place of what was there of it; storage of other
/// accounts stays.
pub proof fn law_saved_storage_is_entered(
    storage: Map<Address, Map<U256, U256>>,
    saved: Seq<(Address, Seq<(U256, U256)>)>,
    address: Address,
)
    ensures
        forall|at: int|
            0 <= at < saved.len() && (#[trigger] saved[at]).0 == address && (forall|later: int|
                at < later < saved.len() ==> (#[trigger] saved[later]).0 != address) ==> lookup(
                with_saved_storage(storage, saved),
                address,
            ) == Some(paired_slots(saved[at].1)),
        (forall|i: int| 0 <= i < saved.len() ==> (#[trigger] saved[i]).0 != address) ==> lookup(
            with_saved_storage(storage, saved),
            address,
        ) == lookup(storage, address),
    decreases saved.len(),
{
    if saved.len() > 0 {
        let fewer = saved.drop_last();
        let last = saved.len() - 1;
        assert(saved[last] == saved.last());
        law_saved_storage_is_entered(storage, fewer, address);
        assert forall|i: int| 0 <= i < fewer.len() implies #[trigger] fewer[i] == saved[i] by {}
        assert forall|at: int|
            0 <= at < saved.len() && (#[trigger] saved[at]).0 == address && (forall|later: int|
                at < later < saved.len() ==> (#[trigger] saved[later]).0 != address) implies lookup(
            with_saved_storage(storage, saved),
            address,
        ) == Some(paired_slots(saved[at].1)) by {
            if at < last {
                assert(saved[last].0 != address);
                assert(fewer[at].0 == address);
                assert forall|later: int| at < later < fewer.len() implies (
                #[trigger] fewer[later]).0 != address by {
                    assert(saved[later].0 != address);
                }
            }
        }
        if forall|i: int| 0 <= i < saved.len() ==> (#[trigger] saved[i]).0 != address {
            assert forall|i: int| 0 <= i < fewer.len() implies (#[trigger] fewer[i]).0
                != address by {
                assert(saved[i].0 != address);
            }
            assert(saved[last].0 != address);
        }
    }
}

/// Pairs of slots and values are read as the value that comes last for each slot.
pub proof fn law_pairs_are_read_as_slots(pairs: Seq<(U256, U256)>, slot: U256)
    ensures
        forall|at: int|
            0 <= at < pairs.len() && (#[trigger] pairs[at]).0 == slot && (forall|later: int|
                at < later < pairs.len() ==> (#[trigger] pairs[later]).0 != slot) ==> lookup(
                paired_slots(pairs),
                slot,
            ) == Some(pairs[at].1),
        (forall|i: int| 0 <= i < pairs.len() ==> (#[trigger] pairs[i]).0 != slot) ==> lookup(
            paired_slots(pairs),
            slot,
        ) is None,
    decreases pairs.len(),
{
    if pairs.len() > 0 {
        let fewer = pairs.drop_last();
        let last = pairs.len() - 1;
        assert(pairs[last] == pairs.last());
        law_pairs_are_read_as_slots(fewer, slot);
        assert forall|i: int| 0 <= i < fewer.len() implies #[trigger] fewer[i] == pairs[i] by {}
        assert forall|at: int|
            0 <= at < pairs.len() && (#[trigger] pairs[at]).0 == slot && (forall|later: int|
                at < later < pairs.len() ==> (#[trigger] pairs[later]).0 != slot) implies lookup(
            paired_slots(pairs),
            slot,
        ) == Some(pairs[at].1) by {
            if at < last {
                assert(pairs[last].0 != slot);
                assert(fewer[at].0 == slot);
                assert forall|later: int| at < later < fewer.len() implies (
                #[trigger] fewer[later]).0 != slot by {
                    assert(pairs[later].0 != slot);
                }
            }
        }
        if forall|i: int| 0 <= i < pairs.len() ==> (#[trigger] pairs[i]).0 != slot {
            assert forall|i: int| 0 <= i < fewer.len() implies (#[trigger] fewer[i]).0 != slot by {
                assert(pairs[i].0 != slot);
            }
            assert(pairs[last].0 != slot);
        }
    }
}

/// Numbers of the right size are read back from their bytes; bytes of another length are
/// none.
pub proof fn law_fields_are_read_from_their_bytes(
    address: Address,
    word: U256,
    hash: B256,
    bytes: Seq<u8>,
)
    ensures
        word_in(be_bytes(word@, 32)) == Some(word),
        hash_in(be_bytes(hash@, 32)) == Some(hash),
        bytes.len() != 32 ==> word_in(bytes) is None && hash_in(bytes) is None,
        bytes.len() != 20 ==> address_in(bytes) is None,
{
    lemma_byte_base_values();
    lemma_be_bytes_round_trip(word@, 32);
    lemma_be_bytes_round_trip(hash@, 32);
    U256::lemma_spec_from(word);
    B256::lemma_spec_from(hash);
}

/// The code that is kept of accounts is the code each of them holds; accounts without
/// code, or with empty code, have none kept.
pub proof fn law_held_code_is_kept(accounts: Map<Address, InfoModel>, address: Address)
    ensures
        inline_codes(accounts).contains_key(address) <==> accounts.contains_key(address)
            && accounts[address].code is Some && accounts[address].code->0.len() > 0,
        inline_codes(accounts).contains_key(address) ==> accounts[address].code == Some(
            inline_codes(accounts)[address],
        ),
{
}

/// What can be loaded of kept code is every code that is well formed, and no other, in
/// the order of the accounts.
pub proof fn law_well_formed_code_is_loaded(
    addresses: Seq<Address>,
    codes: Map<Address, Seq<u8>>,
    address: Address,
)
    ensures
        loadable_codes(addresses, codes).contains((address, codes[address])) <==>
            addresses.contains(address) && loadable_code(codes[address]),
        forall|i: int|
            0 <= i < loadable_codes(addresses, codes).len() ==> addresses.contains(
                (#[trigger] loadable_codes(addresses, codes)[i]).0,
            ) && loadable_codes(addresses, codes)[i].1 == codes[loadable_codes(
                addresses,
                codes,
            )[i].0],
    decreases addresses.len(),
{
    if addresses.len() > 0 {
        let fewer = addresses.drop_last();
        let last = addresses.len() - 1;
        let before = loadable_codes(fewer, codes);
        let all = loadable_codes(addresses, codes);
        assert(addresses[last] == addresses.last());
        law_well_formed_code_is_loaded(fewer, codes, address);
        assert forall|a: Address| fewer.contains(a) implies #[trigger] addresses.contains(a) by {
            let i = fewer.index_of(a);
            assert(addresses[i] == a);
        }
        if addresses.contains(address) && address != addresses.last() {
            let i = addresses.index_of(address);
            assert(fewer[i] == address);
        }
        let wanted = (address, codes[address]);
        if before.contains(wanted) {
            let i = before.index_of(wanted);
            assert(all[i] == wanted);
        }
        if address == addresses.last() && loadable_code(codes[address]) {
            assert(all[before.len() as int] == wanted);
        }
        if all.contains(wanted) {
            let i = all.index_of(wanted);
            if i < before.len() {
                assert(before[i] == wanted);
            }
        }
        assert forall|i: int| 0 <= i < all.len() implies addresses.contains((#[trigger] all[i]).0)
            && all[i].1 == codes[all[i].0] by {
            if i < before.len() {
                assert(all[i] == before[i]);
            } else {
                assert(addresses.contains(addresses[last]));
            }
        }
    }
}

/// A file that no write was asked for yet has the order of none; each write that is asked
/// for takes the next number of its file, and the order of no other file changes.
pub proof fn law_each_file_has_its_order(
    orders: Map<Seq<char>, WriteCoordinator>,
    path: Seq<char>,
    other: Seq<char>,
)
    requires
        order_of(orders, path).latest_generation < u64::MAX,
    ensures
        !orders.contains_key(path) ==> order_of(orders, path).latest_generation == 0,
        orders.contains_key(path) ==> order_of(orders, path) == orders[path],
        order_of(orders_after(orders, path), path).latest_generation == order_of(
            orders,
            path,
        ).latest_generation + 1,
        other != path ==> order_of(orders_after(orders, path), other) == order_of(orders, other),
{
}

} // verus!
