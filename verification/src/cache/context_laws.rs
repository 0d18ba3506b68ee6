//! What a cache is pinned to, what it starts with, and what executions leave.

use crate::access_set::key_of;
use crate::block::{BlockId, BlockNumberOrTag};
use crate::cache::account::{AccountState, Bytecode, InfoModel};
use crate::cache::base::{code_index_of, codes_of};
use crate::cache::config::{SharedMemoryCapacity, StorageBatchConfig};
use crate::cache::context::{
    counted, is_named_hardfork, is_spelled_hardfork, names_hardfork, spells_hardfork, BlockContext,
    BlockContextRequirements, BlockHeader, EvmSpec,
};
use crate::cache::evm_cache::{is_assembled, with_bytecodes, EvmCache, LoadedState};
use crate::cache::journal::{touched_entries, touched_set, JournalModel};
use crate::cache::layers::{accounts_model, lookup, slots_at, storage_model, LayersModel};
use crate::cache::metadata::{kept_storage, CacheConfig};
use crate::cache::snapshot::existing_infos;
use crate::collections::{in_order, lemma_in_order_lists, SortedSet};
use crate::foreign::{code_hash_of, hardfork_text};
use crate::primitives::{Address, SlotKey, B256, U256};
use crate::text::{lowercase_of, uppercase_of};
use vstd::prelude::*;

verus! {

/// A context at a header is of that block: its number, fee, beneficiary, randomness,
/// limit and time are the header's, whatever they were. The chain, the rules and the
/// source stay.
pub proof fn law_contexts_follow_headers(context: BlockContext, header: BlockHeader)
    ensures
        ({
            let after = context.spec_at_header(header);
            &&& after.block == BlockId::Number(BlockNumberOrTag::Number(header.number))
            &&& after.block_number == Some(header.number)
            &&& after.basefee == header.base_fee_per_gas
            &&& after.coinbase == Some(header.beneficiary)
            &&& after.prevrandao == header.mix_hash
            &&& after.block_gas_limit == Some(header.gas_limit)
            &&& after.timestamp == Some(header.timestamp)
            &&& after.source == context.source
            &&& after.chain_id == context.chain_id
            &&& after.spec == context.spec
        }),
{
}

/// A context that is moved to a block by its name has that block's number where the
/// name tells it. It keeps the fee only where it stays at a block with a number. What
/// it holds of the rest stays. Moving there twice is moving there once.
pub proof fn law_contexts_follow_blocks(context: BlockContext, block: BlockId)
    ensures
        ({
            let after = context.spec_at_block(block);
            &&& after.block == block
            &&& block matches BlockId::Number(BlockNumberOrTag::Number(number))
                ==> after.block_number == Some(number)
            &&& !(block matches BlockId::Number(BlockNumberOrTag::Number(_)))
                ==> after.block_number is None && after.basefee is None
            &&& block != context.block ==> after.basefee is None
            &&& block == context.block && after.block_number is Some ==> after.basefee
                == context.basefee
            &&& after.coinbase == context.coinbase
            &&& after.prevrandao == context.prevrandao
            &&& after.block_gas_limit == context.block_gas_limit
            &&& after.timestamp == context.timestamp
            &&& after.source == context.source
            &&& after.chain_id == context.chain_id
            &&& after.spec == context.spec
            &&& after.spec_at_block(block) == after
        }),
{
}

/// A header that lacks nothing meets every demand, lenient demands are met by every
/// header, and strict ones only by a header with a fee and randomness. Asking for less
/// refuses no header that was accepted.
pub proof fn law_demands_on_headers(
    reqs: BlockContextRequirements,
    less: BlockContextRequirements,
    header: BlockHeader,
)
    requires
        less.require_basefee ==> reqs.require_basefee,
        less.require_prevrandao ==> reqs.require_prevrandao,
    ensures
        header.base_fee_per_gas is Some && header.mix_hash is Some ==> reqs.met_by(header),
        BlockContextRequirements::spec_lenient().met_by(header),
        BlockContextRequirements::spec_strict().met_by(header) <==> header.base_fee_per_gas is Some
            && header.mix_hash is Some,
        reqs.met_by(header) ==> less.met_by(header),
        reqs.require_basefee && header.base_fee_per_gas is None ==> !reqs.met_by(header),
        reqs.require_prevrandao && header.mix_hash is None ==> !reqs.met_by(header),
{
}

/// A text names one hardfork: the first whose name it is. A text that is no name
/// stands for Cancun.
pub proof fn law_a_text_names_one_hardfork(text: Seq<char>, one: EvmSpec, another: EvmSpec)
    requires
        is_named_hardfork(text, one),
        is_named_hardfork(text, another),
    ensures
        one.id == another.id,
        (forall|id: u8| !names_hardfork(text, id)) ==> one.id == EvmSpec::CANCUN_ID,
        (exists|id: u8| names_hardfork(text, id)) ==> names_hardfork(text, one.id),
{
    if exists|id: u8| names_hardfork(text, id) {
        if one.id < another.id {
            assert(!names_hardfork(text, one.id));
        }
        if another.id < one.id {
            assert(!names_hardfork(text, another.id));
        }
    }
}

/// The code that accounts hold is found by its hash: where an account holds code under
/// a hash, what is found is the code of an account under that hash; where none does,
/// nothing is found.
pub proof fn law_codes_are_found_by_hash(accounts: Map<Address, InfoModel>, hash: B256)
    requires
        accounts.dom().finite(),
    ensures
        code_index_of(accounts).contains_key(hash) <==> exists|a: Address|
            accounts.contains_key(a) && (#[trigger] accounts[a]).code_hash == hash
                && accounts[a].code is Some,
        code_index_of(accounts).contains_key(hash) ==> exists|a: Address|
            accounts.contains_key(a) && (#[trigger] accounts[a]).code_hash == hash
                && accounts[a].code == Some(code_index_of(accounts)[hash]),
{
    let order = in_order(accounts.dom());
    lemma_in_order_lists(accounts.dom());
    lemma_codes_of(accounts, order, hash);
    if code_index_of(accounts).contains_key(hash) {
        let k = choose|k: int|
            0 <= k < order.len() && accounts[#[trigger] order[k]].code_hash == hash
                && accounts[order[k]].code == Some(codes_of(accounts, order)[hash]);
        assert(order.to_set().contains(order[k]));
        assert(accounts.contains_key(order[k]));
    }
    if exists|a: Address|
        accounts.contains_key(a) && (#[trigger] accounts[a]).code_hash == hash
            && accounts[a].code is Some {
        let a = choose|a: Address|
            accounts.contains_key(a) && (#[trigger] accounts[a]).code_hash == hash
                && accounts[a].code is Some;
        assert(order.to_set().contains(a));
        let k = order.index_of(a);
        assert(order[k] == a);
    }
}

/// What is found among accounts in order.
proof fn lemma_codes_of(accounts: Map<Address, InfoModel>, order: Seq<Address>, hash: B256)
    ensures
        codes_of(accounts, order).contains_key(hash) ==> exists|k: int|
            0 <= k < order.len() && accounts[#[trigger] order[k]].code_hash == hash
                && accounts[order[k]].code == Some(codes_of(accounts, order)[hash]),
        forall|k: int|
            0 <= k < order.len() && accounts[#[trigger] order[k]].code_hash == hash
                && accounts[order[k]].code is Some ==> codes_of(accounts, order).contains_key(hash),
    decreases order.len(),
{
    if order.len() > 0 {
        let fewer = order.drop_last();
        let last = order.len() - 1;
        assert(order[last] == order.last());
        lemma_codes_of(accounts, fewer, hash);
        assert forall|k: int|
            0 <= k < order.len() && accounts[#[trigger] order[k]].code_hash == hash
                && accounts[order[k]].code is Some implies codes_of(accounts, order).contains_key(
            hash,
        ) by {
            if k < last {
                assert(fewer[k] == order[k]);
            }
        }
        if codes_of(accounts, order).contains_key(hash) {
            let info = accounts[order.last()];
            if info.code is Some && info.code_hash == hash {
                assert(accounts[order[last]].code == Some(codes_of(accounts, order)[hash]));
            } else {
                let k = choose|k: int|
                    0 <= k < fewer.len() && accounts[#[trigger] fewer[k]].code_hash == hash
                        && accounts[fewer[k]].code == Some(codes_of(accounts, fewer)[hash]);
                assert(order[k] == fewer[k]);
            }
        }
    }
}

/// What a simulation sees of an account agrees with what updates see, but for a hash
/// of zero: it exists in both or in neither, with one balance, one nonce and one code.
pub proof fn law_both_readings_of_an_account_agree(layers: LayersModel, address: Address)
    ensures
        layers.evm_info(address) is Some <==> layers.info(address) is Some,
        layers.info(address) matches Some(info) ==> {
            let seen = layers.evm_info(address)->0;
            &&& seen.balance == info.balance
            &&& seen.nonce == info.nonce
            &&& seen.code == info.code
            &&& seen.code_hash@ != 0 ==> seen.code_hash == info.code_hash
        },
{
}

/// A code is read where an account of the overlay that exists holds it, or an account
/// of the backend does, and nowhere else. The overlay comes first.
pub proof fn law_codes_are_read_overlay_first(layers: LayersModel, hash: B256)
    requires
        layers.overlay.dom().finite(),
        layers.accounts.dom().finite(),
    ensures
        ({
            let above = exists|a: Address|
                layers.overlay.contains_key(a) && (#[trigger] layers.overlay[a]).account_state
                    != AccountState::NotExisting && layers.overlay[a].info.code_hash == hash
                    && layers.overlay[a].info.code is Some;
            let below = exists|a: Address|
                layers.accounts.contains_key(a) && (#[trigger] layers.accounts[a]).code_hash
                    == hash && layers.accounts[a].code is Some;
            &&& layers.code(hash) is Some <==> above || below
            &&& above ==> exists|a: Address|
                layers.overlay.contains_key(a) && (#[trigger] layers.overlay[a]).account_state
                    != AccountState::NotExisting && layers.overlay[a].info.code_hash == hash
                    && layers.overlay[a].info.code == layers.code(hash)
            &&& !above && below ==> exists|a: Address|
                layers.accounts.contains_key(a) && (#[trigger] layers.accounts[a]).code_hash
                    == hash && layers.accounts[a].code == layers.code(hash)
        }),
{
    let upper = existing_infos(layers.overlay);
    assert(upper.dom() =~= layers.overlay.dom());
    law_codes_are_found_by_hash(upper, hash);
    law_codes_are_found_by_hash(layers.accounts, hash);
    if exists|a: Address|
        upper.contains_key(a) && (#[trigger] upper[a]).code_hash == hash && upper[a].code is Some {
        let a = choose|a: Address|
            upper.contains_key(a) && (#[trigger] upper[a]).code_hash == hash
                && upper[a].code == Some(code_index_of(upper)[hash]);
        assert(layers.overlay[a].account_state != AccountState::NotExisting);
    }
    if exists|a: Address|
        layers.overlay.contains_key(a) && (#[trigger] layers.overlay[a]).account_state
            != AccountState::NotExisting && layers.overlay[a].info.code_hash == hash
            && layers.overlay[a].info.code is Some {
        let a = choose|a: Address|
            layers.overlay.contains_key(a) && (#[trigger] layers.overlay[a]).account_state
                != AccountState::NotExisting && layers.overlay[a].info.code_hash == hash
                && layers.overlay[a].info.code is Some;
        assert(upper[a].code is Some);
    }
}

/// The access list of an execution has an entry for each account that it touched, with
/// the keys of the slots that it left there, and for no other; touched accounts come
/// in the order of the journal.
pub proof fn law_touched_accounts_are_listed(journal: Seq<JournalModel>, i: int)
    requires
        0 <= i < journal.len(),
    ensures
        journal[i].touched ==> touched_entries(journal).contains(
            (
                journal[i].address,
                Seq::new(
                    journal[i].storage.len(),
                    |k: int| key_of(journal[i].storage[k].slot),
                ),
            ),
        ),
        forall|e: int|
            0 <= e < touched_entries(journal).len() ==> exists|j: int|
                0 <= j < journal.len() && (#[trigger] journal[j]).touched && journal[j].address == (
                #[trigger] touched_entries(journal)[e]).0 && touched_entries(journal)[e].1.len()
                    == journal[j].storage.len(),
        touched_entries(journal).len() <= journal.len(),
        (forall|j: int| 0 <= j < journal.len() ==> (#[trigger] journal[j]).touched)
            ==> touched_entries(journal).len() == journal.len(),
    decreases journal.len(),
{
    let fewer = journal.drop_last();
    let last = journal.len() - 1;
    let account = journal.last();
    assert(journal[last] == account);
    let entries = touched_entries(fewer);
    let all = touched_entries(journal);
    if fewer.len() > 0 {
        law_touched_accounts_are_listed(fewer, if i < last { i } else { 0 });
    }
    let keys = Seq::new(journal[i].storage.len(), |k: int| key_of(journal[i].storage[k].slot));
    if journal[i].touched {
        if i < last {
            assert(fewer[i] == journal[i]);
            let wanted = (journal[i].address, keys);
            assert(keys =~= Seq::new(
                fewer[i].storage.len(),
                |k: int| key_of(fewer[i].storage[k].slot),
            ));
            let at = entries.index_of(wanted);
            assert(all[at] == wanted);
        } else {
            assert(crate::cache::journal::storage_keys(account.storage) =~= keys);
            assert(all[entries.len() as int] == (account.address, keys));
        }
    }
    assert forall|e: int| 0 <= e < all.len() implies exists|j: int|
        0 <= j < journal.len() && (#[trigger] journal[j]).touched && journal[j].address == (
        #[trigger] all[e]).0 && all[e].1.len() == journal[j].storage.len() by {
        if e < entries.len() {
            assert(all[e] == entries[e]);
            let j = choose|j: int|
                0 <= j < fewer.len() && (#[trigger] fewer[j]).touched && fewer[j].address
                    == entries[e].0 && entries[e].1.len() == fewer[j].storage.len();
            assert(journal[j] == fewer[j]);
        } else {
            assert(journal[last].touched);
        }
    }
    if forall|j: int| 0 <= j < journal.len() ==> (#[trigger] journal[j]).touched {
        assert(journal[last].touched);
        assert forall|j: int| 0 <= j < fewer.len() implies (#[trigger] fewer[j]).touched by {
            assert(journal[j].touched);
        }
    }
}

/// The read set of an execution holds the accounts that it touched and their slots,
/// and nothing of accounts that it did not touch.
pub proof fn law_touched_accounts_are_read(
    journal: Seq<JournalModel>,
    i: int,
    k: int,
    key: SlotKey,
)
    requires
        0 <= i < journal.len(),
    ensures
        journal[i].touched ==> touched_set(journal).accounts.contains(journal[i].address),
        journal[i].touched && 0 <= k < journal[i].storage.len() ==> touched_set(
            journal,
        ).slots.contains(
            SlotKey { address: journal[i].address, slot: journal[i].storage[k].slot },
        ),
        (forall|j: int|
            0 <= j < journal.len() && (#[trigger] journal[j]).address == key.address
                ==> !journal[j].touched) ==> !touched_set(journal).accounts.contains(key.address)
            && !touched_set(journal).slots.contains(key),
        touched_set(journal).slots.contains(key) ==> touched_set(journal).accounts.contains(
            key.address,
        ),
        touched_set(journal).code_hashes == Set::<B256>::empty(),
        touched_set(journal).block_numbers == Set::<u64>::empty(),
{
    if journal[i].touched {
        assert(journal[i].address == journal[i].address);
        if 0 <= k < journal[i].storage.len() {
            assert(journal[i].storage[k].slot == journal[i].storage[k].slot);
        }
    }
}

/// Whether code is the last, and not empty, for an account.
pub open spec fn is_last_code(
    bytecodes: Seq<(Address, Bytecode)>,
    address: Address,
    at: int,
) -> bool {
    &&& 0 <= at < bytecodes.len()
    &&& bytecodes[at].0 == address && bytecodes[at].1@.len() > 0
    &&& forall|later: int|
        at < later < bytecodes.len() ==> !((#[trigger] bytecodes[later]).0 == address
            && bytecodes[later].1@.len() > 0)
}

/// An account that code was saved for holds that code under its own hash, with no
/// balance and no nonce; empty code counts as none. Accounts that no code was saved
/// for are as they were.
pub proof fn law_saved_codes_are_installed(
    accounts: Map<Address, InfoModel>,
    bytecodes: Seq<(Address, Bytecode)>,
    address: Address,
)
    ensures
        forall|at: int| #[trigger]
            is_last_code(bytecodes, address, at) ==> {
                let after = with_bytecodes(accounts, bytecodes);
                &&& after.contains_key(address)
                &&& after[address].code == Some(bytecodes[at].1@)
                &&& after[address].code_hash == B256::spec_from(code_hash_of(bytecodes[at].1@))
                &&& after[address].balance@ == 0
                &&& after[address].nonce == 0
            },
        (forall|i: int|
            0 <= i < bytecodes.len() && (#[trigger] bytecodes[i]).0 == address
                ==> bytecodes[i].1@.len() == 0) ==> lookup(
            with_bytecodes(accounts, bytecodes),
            address,
        ) == lookup(accounts, address),
    decreases bytecodes.len(),
{
    if bytecodes.len() > 0 {
        let fewer = bytecodes.drop_last();
        let last = bytecodes.len() - 1;
        assert(bytecodes[last] == bytecodes.last());
        law_saved_codes_are_installed(accounts, fewer, address);
        assert forall|i: int| 0 <= i < fewer.len() implies #[trigger] fewer[i] == bytecodes[i] by {}
        assert forall|at: int| #[trigger] is_last_code(bytecodes, address, at) implies {
            let after = with_bytecodes(accounts, bytecodes);
            &&& after.contains_key(address)
            &&& after[address].code == Some(bytecodes[at].1@)
            &&& after[address].code_hash == B256::spec_from(code_hash_of(bytecodes[at].1@))
            &&& after[address].balance@ == 0
            &&& after[address].nonce == 0
        } by {
            if at < last {
                assert(!(bytecodes[last].0 == address && bytecodes[last].1@.len() > 0));
                assert forall|later: int| at < later < fewer.len() implies !((
                #[trigger] fewer[later]).0 == address && fewer[later].1@.len() > 0) by {
                    assert(!(bytecodes[later].0 == address && bytecodes[later].1@.len() > 0));
                }
                assert(is_last_code(fewer, address, at));
            }
        }
        if forall|i: int|
            0 <= i < bytecodes.len() && (#[trigger] bytecodes[i]).0 == address
                ==> bytecodes[i].1@.len() == 0 {
            assert forall|i: int|
                0 <= i < fewer.len() && (#[trigger] fewer[i]).0 == address implies fewer[i].1@.len()
                == 0 by {
                assert(bytecodes[i].1@.len() == 0);
            }
            assert(bytecodes[last].0 == address ==> bytecodes[last].1@.len() == 0);
        }
    }
}

/// Of storage that was loaded, what is asked for is kept: all slots of an account that
/// is named, but of an account with slots named only those. Where nothing is named
/// everything is kept. What is kept has the value it had.
pub proof fn law_named_storage_is_kept(
    storage: Map<Address, Map<U256, U256>>,
    addresses: Set<Address>,
    slots: Map<Address, SortedSet<U256>>,
    address: Address,
    slot: U256,
)
    ensures
        ({
            let kept = kept_storage(storage, addresses, slots);
            let unnamed = addresses == Set::<Address>::empty() && slots.dom() == Set::<
                Address,
            >::empty();
            let wanted = unnamed || (slots.contains_key(address) && slots[address]@.contains(slot))
                || (addresses.contains(address) && !slots.contains_key(address));
            lookup(slots_at(kept, address), slot) == if wanted {
                lookup(slots_at(storage, address), slot)
            } else {
                None
            }
        }),
{
}

/// A cache that was just put together reads as what was loaded: no account is changed
/// yet, slots that are kept read their values, accounts read as loaded unless code was
/// saved for them, and it is pinned to the block it was given.
pub proof fn law_a_new_cache_reads_as_loaded(
    cache: EvmCache,
    block: BlockId,
    header: Option<&BlockHeader>,
    spec: EvmSpec,
    chain_id: u64,
    config: Option<&CacheConfig>,
    loaded: LoadedState,
    capacity: SharedMemoryCapacity,
    batches: StorageBatchConfig,
    address: Address,
    slot: U256,
)
    requires
        is_assembled(cache, block, header, spec, chain_id, config, loaded, capacity, batches),
    ensures
        config is None ==> cache.layers@.slot(address, slot) == lookup(
            slots_at(storage_model(loaded.storage@), address),
            slot,
        ),
        cache.layers@.slot(address, slot) matches Some(value) ==> lookup(
            slots_at(storage_model(loaded.storage@), address),
            slot,
        ) == Some(value),
        (forall|i: int|
            0 <= i < loaded.bytecodes@.len() ==> (#[trigger] loaded.bytecodes@[i]).0 != address)
            ==> cache.layers@.local_info(address) == lookup(
            accounts_model(loaded.accounts@),
            address,
        ),
        cache.code_seeds@.contains_key(address) ==> loaded.code_seeds@.contains_key(address)
            && cache.code_seeds@[address] == loaded.code_seeds@[address]
            && cache.layers.accounts@.contains_key(address)
            && cache.layers.accounts@[address]@.has_code()
            && cache.layers.accounts@[address]@.code_hash
            == loaded.code_seeds@[address].spec_code_hash(),
        loaded.code_seeds@.contains_key(address) && cache.layers.accounts@.contains_key(address)
            && cache.layers.accounts@[address]@.has_code()
            && cache.layers.accounts@[address]@.code_hash
            == loaded.code_seeds@[address].spec_code_hash() ==> cache.code_seeds@.contains_key(
            address,
        ),
        cache.context.block == block,
        cache.pinned == block,
        cache.context.chain_id == chain_id,
        cache.context.spec == spec,
        header matches Some(header) ==> cache.context.block_number == Some(header.number)
            && cache.context.basefee == header.base_fee_per_gas && cache.context.timestamp == Some(
            header.timestamp,
        ) && cache.context.coinbase == Some(header.beneficiary) && cache.context.prevrandao
            == header.mix_hash && cache.context.block_gas_limit == Some(header.gas_limit),
        header is None ==> cache.context.block_number is None && cache.context.basefee is None
            && cache.context.timestamp is None,
        capacity matches SharedMemoryCapacity::Fixed(bytes) ==> cache.shared_memory_capacity
            == bytes,
        capacity is Auto ==> SharedMemoryCapacity::MIN_AUTO <= cache.shared_memory_capacity
            <= SharedMemoryCapacity::MAX_AUTO,
        cache.storage_batch_config.slots_per_batch >= 1,
        cache.storage_batch_config.max_concurrent_batches >= 1,
        batches.slots_per_batch >= 1 ==> cache.storage_batch_config.slots_per_batch
            == batches.slots_per_batch,
        batches.max_concurrent_batches >= 1 ==> cache.storage_batch_config.max_concurrent_batches
            == batches.max_concurrent_batches,
{
    law_saved_codes_are_installed(accounts_model(loaded.accounts@), loaded.bytecodes@, address);
}

/// Strict demands ask for everything, and lenient ones for nothing.
pub proof fn law_strict_demands_ask_for_everything()
    ensures
        ({
            let strict = BlockContextRequirements::spec_strict();
            &&& strict.require_number && strict.require_basefee && strict.require_coinbase
            &&& strict.require_prevrandao && strict.require_gas_limit
        }),
        ({
            let lenient = BlockContextRequirements::spec_lenient();
            &&& !lenient.require_number && !lenient.require_basefee && !lenient.require_coinbase
            &&& !lenient.require_prevrandao && !lenient.require_gas_limit
        }),
{
}

/// A text names a hardfork where the two agree in lower case or in upper case, whichever
/// of the two; a number that no hardfork has is never named.
pub proof fn law_names_are_read_in_any_case(text: Seq<char>, name: Seq<char>, id: u8)
    requires
        hardfork_text(id) == Some(name),
    ensures
        lowercase_of(text) == lowercase_of(name) ==> names_hardfork(text, id),
        uppercase_of(text) == uppercase_of(name) ==> names_hardfork(text, id),
        lowercase_of(text) != lowercase_of(name) && uppercase_of(text) != uppercase_of(name)
            ==> !names_hardfork(text, id),
        names_hardfork(name, id),
        forall|none: u8| hardfork_text(none) is None ==> !#[trigger] names_hardfork(text, none),
{
}

/// A text of plain letters names a hardfork where it differs from its name in nothing but
/// the case of letters.
pub proof fn law_plain_names_differ_in_case_alone(text: Seq<char>, spec: EvmSpec, name: Seq<char>)
    requires
        is_spelled_hardfork(text, spec),
        hardfork_text(spec.id) == Some(name),
        exists|id: u8| spells_hardfork(text, id),
    ensures
        text.len() == name.len(),
        forall|i: int|
            0 <= i < text.len() ==> (#[trigger] text[i] == name[i] || text[i] as int == name[i] as int
                + 32 || text[i] as int + 32 == name[i] as int),
{
    assert forall|i: int| 0 <= i < text.len() implies (#[trigger] text[i] == name[i]
        || text[i] as int == name[i] as int + 32 || text[i] as int + 32 == name[i] as int) by {
        assert(crate::text::ascii_lower(text[i]) == crate::text::ascii_lower(name[i]));
    }
}

/// A count as a word is the same number.
pub proof fn law_counts_are_words(count: u64)
    ensures
        counted(count)@ == count,
{
}

} // verus!
