use evm_fork_cache::block::{BlockId, BlockNumberOrTag};
use evm_fork_cache::bytes::Bytes;
use evm_fork_cache::cache::account::{AccountInfo, Bytecode};
use evm_fork_cache::cache::builder::EvmCacheBuilder;
use evm_fork_cache::cache::config::{
    CacheSpeedMode, SharedMemoryCapacity, StorageBatchConfig, StorageFetchStrategy,
};
use evm_fork_cache::cache::context::{
    parse_evm_spec, BlockContextError, BlockContextRequirements, BlockEnvironment, BlockHeader,
    EvmSpec,
};
use evm_fork_cache::cache::evm_cache::{EvmCache, LoadedState};
use evm_fork_cache::cache::metadata::{CacheConfig, ImmutableDataCache};
use evm_fork_cache::cache::shared_backend::SharedBackend;
use evm_fork_cache::cache::state_update::{
    AccountPatch, PurgeScope, SlotChange, SlotDelta, StateUpdate,
};
use evm_fork_cache::collections::{SortedMap, SortedSet};
use evm_fork_cache::primitives::{Address, B256, U256};

fn word(n: u64) -> U256 {
    U256::from_u64(n)
}

fn nothing() -> LoadedState {
    LoadedState {
        accounts: SortedMap::new(),
        storage: SortedMap::new(),
        bytecodes: Vec::new(),
        code_seeds: SortedMap::new(),
        immutable: ImmutableDataCache::default(),
    }
}

fn empty_cache() -> EvmCache {
    EvmCacheBuilder::new().build(None, None, nothing())
}

fn header(number: u64) -> BlockHeader {
    BlockHeader {
        number,
        base_fee_per_gas: Some(7),
        beneficiary: Address::repeat_byte(0xC0),
        mix_hash: Some(B256::repeat_byte(0x77)),
        gas_limit: 30_000_000,
        timestamp: 1_700_000_000,
    }
}

fn bare_header() -> BlockHeader {
    BlockHeader {
        number: 0,
        base_fee_per_gas: None,
        beneficiary: Address::zero(),
        mix_hash: None,
        gas_limit: 0,
        timestamp: 0,
    }
}

fn set(address: Address, slot: u64, value: u64) -> StateUpdate {
    StateUpdate::Slot { address, slot: word(slot), value: word(value) }
}

fn account(balance: u64) -> AccountInfo {
    AccountInfo { balance: word(balance), ..AccountInfo::default() }
}

#[test]
fn snapshot_generation_bumps_on_writes_and_repins_not_prefetch() {
    let mut cache = empty_cache();

    let addr = Address::repeat_byte(0x77);
    let g0 = cache.snapshot_generation();

    cache.apply_updates(&[set(addr, 1, 10)]);
    let g1 = cache.snapshot_generation();
    assert!(g1 > g0, "apply_updates must bump the generation");

    cache.apply_update(&set(addr, 2, 20));
    let g2 = cache.snapshot_generation();
    assert!(g2 > g1, "apply_update must bump the generation");

    // An empty batch is a no-op, not a mutation.
    cache.apply_updates(&[]);
    assert_eq!(cache.snapshot_generation(), g2);

    // modify_slot on a warm slot bumps.
    let change = cache.modify_slot(addr, word(1), |v| {
        Some(v.unwrap_or(U256::zero()).saturating_add(word(1)))
    });
    assert!(change.is_some());
    let g3 = cache.snapshot_generation();
    assert!(g3 > g2, "modify_slot must bump the generation");

    // Cold prefetch materializes existing chain state: no bump.
    cache.inject_storage_batch(&[(addr, word(9), word(90))]);
    assert_eq!(
        cache.snapshot_generation(),
        g3,
        "inject_storage_batch is prefetch, not mutation"
    );

    // Block re-pins bump; a same-block set_block is a no-op.
    cache.set_block(BlockId::Number(BlockNumberOrTag::Number(5)));
    let g4 = cache.snapshot_generation();
    assert!(g4 > g3, "set_block to a new pin must bump the generation");
    cache.set_block(BlockId::Number(BlockNumberOrTag::Number(5)));
    assert_eq!(
        cache.snapshot_generation(),
        g4,
        "re-pinning to the same block is not a mutation"
    );

    // advance_block refreshes the environment, so it bumps too.
    cache.advance_block(&bare_header()).expect("lenient advance");
    assert!(cache.snapshot_generation() > g4);
}

#[test]
fn test_address_to_u256_conversion() {
    let addr = Address::repeat_byte(0xAB);
    let value = addr.into_word();

    let mut bytes = Vec::new();
    value.append_to(&mut bytes);

    // First 12 bytes should be zero (padding)
    assert_eq!(&bytes[..12], &[0u8; 12]);

    // Last 20 bytes should be the address
    assert_eq!(&bytes[12..], addr.to_vec().as_slice());
}

#[test]
fn new_defaults_to_latest_block_pin() {
    let cache = empty_cache();

    assert_eq!(
        cache.block(),
        BlockId::latest(),
        "a default cache must carry an explicit latest block pin, not None"
    );
}

#[test]
fn test_set_block_context_stores_values() {
    let mut cache = empty_cache();

    // Initially None
    assert_eq!(cache.block_number(), None);
    assert_eq!(cache.basefee(), None);

    // Set values
    cache.set_block_context(Some(148_252_680), Some(50));
    assert_eq!(cache.block_number(), Some(148_252_680));
    assert_eq!(cache.basefee(), Some(50));

    // Clear values
    cache.set_block_context(None, None);
    assert_eq!(cache.block_number(), None);
    assert_eq!(cache.basefee(), None);
}

#[test]
fn set_block_latest_clears_stale_block_context() {
    let mut cache = empty_cache();
    cache.set_block_context(Some(148_252_680), Some(50));

    cache.set_block(BlockId::latest());

    assert_eq!(
        cache.block_number(),
        None,
        "tag pins must not retain a stale NUMBER context"
    );
    assert_eq!(
        cache.basefee(),
        None,
        "set_block cannot refresh BASEFEE synchronously, so it must clear stale values"
    );
}

#[test]
fn set_block_latest_clears_stale_context_even_when_pin_unchanged() {
    let mut cache = empty_cache();
    cache.set_block_context(Some(148_252_680), Some(50));

    cache.set_block(BlockId::latest());

    assert_eq!(
        cache.block_number(),
        None,
        "latest pins must not retain a stale NUMBER context"
    );
    assert_eq!(
        cache.basefee(),
        None,
        "latest pins can drift like tags, so stale BASEFEE must be cleared"
    );
}

#[test]
fn set_block_number_sets_number_and_clears_stale_basefee() {
    let mut cache = empty_cache();
    cache.set_block_context(Some(100), Some(50));

    cache.set_block(BlockId::Number(BlockNumberOrTag::Number(200)));

    assert_eq!(cache.block_number(), Some(200));
    assert_eq!(
        cache.basefee(),
        None,
        "set_block cannot refresh BASEFEE synchronously, so it must clear stale values"
    );
}

#[test]
fn repin_to_block_clears_stale_basefee() {
    let mut cache = empty_cache();
    cache.set_block_context(Some(100), Some(50));

    cache.repin_to_block(200);

    assert_eq!(cache.block_number(), Some(200));
    assert_eq!(
        cache.basefee(),
        None,
        "repin_to_block must not carry stale BASEFEE across blocks"
    );
}

#[test]
fn test_build_evm_applies_block_context() {
    let mut cache = empty_cache();

    let block_num = 148_252_680u64;
    let basefee_val = 50u64;
    let coinbase = Address::repeat_byte(0xC0);
    let prevrandao = B256::repeat_byte(0x77);
    let gas_limit = 30_000_000u64;
    cache.set_block_context(Some(block_num), Some(basefee_val));
    cache.set_coinbase(Some(coinbase));
    cache.set_prevrandao(Some(prevrandao));
    cache.set_block_gas_limit(Some(gas_limit));

    let defaults = BlockEnvironment {
        number: U256::zero(),
        timestamp: word(1),
        basefee: 0,
        beneficiary: Address::zero(),
        prevrandao: Some(B256::zero()),
        gas_limit: u64::MAX,
    };
    let block = cache.context.environment(defaults, std::time::UNIX_EPOCH);
    assert_eq!(block.number, word(block_num));
    assert_eq!(block.basefee, basefee_val);
    assert_eq!(block.beneficiary, coinbase);
    assert_eq!(block.prevrandao, Some(prevrandao));
    assert_eq!(block.gas_limit, gas_limit);
}

#[test]
fn environment_without_context_is_the_default_at_the_clock() {
    let defaults = BlockEnvironment {
        number: word(3),
        timestamp: word(1),
        basefee: 4,
        beneficiary: Address::repeat_byte(9),
        prevrandao: None,
        gas_limit: 5,
    };
    let mut cache = empty_cache();
    let clock = std::time::UNIX_EPOCH + std::time::Duration::from_secs(99);
    let block = cache.context.environment(defaults, clock);
    assert_eq!(block, BlockEnvironment { timestamp: word(99), ..defaults });
    cache.set_timestamp(Some(12));
    assert_eq!(cache.context.environment(defaults, clock).timestamp, word(12));
}

#[test]
fn test_from_backend_propagates_block_context() {
    let mut parent = empty_cache();

    let block_num = Some(148_252_680u64);
    let basefee_val = Some(50u64);
    let block = parent.block();
    let child = EvmCache::from_backend(
        parent.give_backend(),
        block,
        42161,
        block_num,
        basefee_val,
        EvmSpec::cancun(),
    );

    assert_eq!(child.block_number(), block_num);
    assert_eq!(child.basefee(), basefee_val);
}

#[test]
fn header_gives_the_context() {
    let cache = EvmCacheBuilder::new().build(Some(&header(5)), Some(10), nothing());
    assert_eq!(cache.block(), BlockId::latest());
    assert_eq!(cache.block_number(), Some(5));
    assert_eq!(cache.basefee(), Some(7));
    assert_eq!(cache.coinbase(), Some(Address::repeat_byte(0xC0)));
    assert_eq!(cache.prevrandao(), Some(B256::repeat_byte(0x77)));
    assert_eq!(cache.block_gas_limit(), Some(30_000_000));
    assert_eq!(cache.timestamp(), Some(1_700_000_000));
    assert_eq!(cache.chain_id(), 10);
}

#[test]
fn chain_is_the_given_one_then_the_persisted_then_the_providers() {
    let config =
        || CacheConfig::new("dir".to_string(), 42161, SortedSet::new(), SortedMap::new());
    let given = EvmCacheBuilder::new().chain_id(8453).cache_config(config());
    assert_eq!(given.build(None, Some(10), nothing()).chain_id(), 8453);
    let persisted = EvmCacheBuilder::new().cache_config(config());
    assert_eq!(persisted.build(None, Some(10), nothing()).chain_id(), 42161);
    assert_eq!(EvmCacheBuilder::new().build(None, Some(10), nothing()).chain_id(), 10);
    assert_eq!(EvmCacheBuilder::new().build(None, None, nothing()).chain_id(), 1);
}

#[test]
fn strict_builds_require_every_field() {
    let strict = || EvmCacheBuilder::new().strict_block_context(true);
    assert!(strict().checks_header());
    assert!(!EvmCacheBuilder::new().checks_header());
    let built = strict().try_build(None, None, nothing(), Ok(header(1))).map(|c| c.requirements);
    assert_eq!(built, Ok(BlockContextRequirements::strict()));

    let missing_fee = BlockHeader { base_fee_per_gas: None, ..header(1) };
    assert!(matches!(
        strict().try_build(None, None, nothing(), Ok(missing_fee)),
        Err(BlockContextError::MissingField { field: "basefee" })
    ));
    let missing_mix = BlockHeader { mix_hash: None, ..header(1) };
    assert!(matches!(
        strict().try_build(None, None, nothing(), Ok(missing_mix)),
        Err(BlockContextError::MissingField { field: "prevrandao" })
    ));
    assert!(matches!(
        strict().try_build(None, None, nothing(), Err("down".to_string())),
        Err(BlockContextError::FetchFailed(details)) if details == "down"
    ));
    assert!(EvmCacheBuilder::new()
        .try_build(None, None, nothing(), Err("down".to_string()))
        .is_ok());
}

#[test]
fn options_are_kept() {
    let builder = EvmCacheBuilder::new()
        .max_concurrent_proofs(0)
        .block(BlockId::number(9))
        .spec(parse_evm_spec("Prague"))
        .shared_memory_capacity(SharedMemoryCapacity::Fixed(128))
        .speed_mode(CacheSpeedMode::Fast)
        .storage_fetch_strategy(StorageFetchStrategy::PointRead);
    assert_eq!(builder.max_concurrent_proofs, 1);
    assert_eq!(builder.storage_batch_config, StorageBatchConfig::new(150, 8));
    assert!(!builder.storage_fetch_strategy.is_default());
    assert!(StorageFetchStrategy::default().is_default());
    let cache = builder.build(None, None, nothing());
    assert_eq!(cache.block(), BlockId::number(9));
    assert_eq!(cache.shared_memory_capacity(), 128);
    assert_eq!(cache.storage_batch_config(), StorageBatchConfig::new(150, 8));
}

#[test]
fn hard_forks_go_by_name_in_any_case() {
    assert_eq!(parse_evm_spec("Cancun"), EvmSpec::cancun());
    assert_eq!(parse_evm_spec("shanghai"), EvmSpec { id: 16 });
    assert_eq!(parse_evm_spec("PRAGUE"), EvmSpec { id: 18 });
    assert_eq!(parse_evm_spec("dao fork"), EvmSpec { id: 3 });
    assert_eq!(parse_evm_spec("muirglacier"), EvmSpec { id: 10 });
    assert_eq!(parse_evm_spec(""), EvmSpec::cancun());
    assert_eq!(parse_evm_spec("no such fork"), EvmSpec::cancun());
}

#[test]
fn strict_cache_refuses_to_advance_without_a_base_fee() {
    let mut cache = empty_cache();
    cache.set_block_context_requirements(BlockContextRequirements::strict());
    let before = cache.snapshot_generation();
    let refused = cache.advance_block(&BlockHeader { base_fee_per_gas: None, ..header(3) });
    assert!(matches!(refused, Err(BlockContextError::MissingField { field: "basefee" })));
    assert_eq!(cache.block_number(), None);
    assert_eq!(cache.snapshot_generation(), before);
    cache.advance_block(&header(3)).expect("every field is there");
    assert_eq!(cache.block_number(), Some(3));
    assert_eq!(cache.block(), BlockId::number(3));
}

#[test]
fn writes_are_read_back_and_told() {
    let addr = Address::repeat_byte(0x11);
    let mut cache = empty_cache();
    let diff = cache.apply_update(&set(addr, 1, 10));
    assert_eq!(
        diff.slots,
        vec![SlotChange { address: addr, slot: word(1), old: U256::zero(), new: word(10) }]
    );
    assert_eq!(cache.cached_storage_value(addr, word(1)), Some(word(10)));
    assert!(cache.apply_update(&set(addr, 1, 10)).slots.is_empty());
}

#[test]
fn a_batch_is_what_its_updates_are_one_after_the_other() {
    let addr = Address::repeat_byte(0x11);
    let add = |amount: u64| StateUpdate::SlotDelta {
        address: addr,
        slot: word(1),
        delta: SlotDelta::Add(word(amount)),
    };
    let mut batched = empty_cache();
    let together = batched.apply_updates(&[set(addr, 1, 5), add(3), add(4)]);
    let mut stepped = empty_cache();
    let mut merged = stepped.apply_update(&set(addr, 1, 5));
    merged.merge(stepped.apply_update(&add(3)));
    merged.merge(stepped.apply_update(&add(4)));
    assert_eq!(together, merged);
    assert_eq!(batched.cached_storage_value(addr, word(1)), Some(word(12)));
    assert_eq!(stepped.cached_storage_value(addr, word(1)), Some(word(12)));
}

#[test]
fn deltas_saturate_and_cold_slots_are_skipped() {
    let addr = Address::repeat_byte(0x11);
    let mut cache = empty_cache();
    let delta = |delta: SlotDelta| StateUpdate::SlotDelta { address: addr, slot: word(1), delta };
    let cold = cache.apply_update(&delta(SlotDelta::Add(word(1))));
    assert!(cold.has_skipped());
    assert_eq!(cold.skipped.len(), 1);
    assert_eq!(cache.cached_storage_value(addr, word(1)), None);

    cache.apply_update(&set(addr, 1, 5));
    cache.apply_update(&delta(SlotDelta::Sub(word(9))));
    assert_eq!(cache.cached_storage_value(addr, word(1)), Some(U256::zero()));
    cache.apply_update(&delta(SlotDelta::Add(U256::max_value())));
    cache.apply_update(&delta(SlotDelta::Add(word(9))));
    assert_eq!(cache.cached_storage_value(addr, word(1)), Some(U256::max_value()));
}

#[test]
fn masked_writes_touch_only_the_mask() {
    let addr = Address::repeat_byte(0x11);
    let mut cache = empty_cache();
    let masked = StateUpdate::SlotMasked {
        address: addr,
        slot: word(1),
        mask: word(0x0f),
        value: word(0xabcd),
    };
    assert_eq!(cache.apply_update(&masked).skipped_masks.len(), 1);
    cache.apply_update(&set(addr, 1, 0x77));
    cache.apply_update(&masked);
    assert_eq!(cache.cached_storage_value(addr, word(1)), Some(word(0x7d)));
}

#[test]
fn accounts_are_patched_where_they_are_known() {
    let addr = Address::repeat_byte(0x11);
    let code = Bytecode::new_raw(Bytes::from_vec(vec![0x60, 0x01]));
    let hash = code.hash_slow();
    let mut cache = empty_cache();
    let patch = |balance: u64| StateUpdate::Account {
        address: addr,
        patch: AccountPatch { balance: Some(word(balance)), nonce: Some(2), code: None },
    };
    assert_eq!(cache.apply_update(&patch(1)).skipped_accounts.len(), 1);
    cache.absorb_fetched_account(addr, account(50));
    let diff = cache.apply_update(&patch(70));
    assert_eq!(diff.accounts.len(), 1);
    assert_eq!(diff.accounts[0].balance, Some((word(50), word(70))));
    assert_eq!(diff.accounts[0].nonce, Some((0, 2)));
    let coded = cache.apply_update(&StateUpdate::Account {
        address: addr,
        patch: AccountPatch { balance: None, nonce: None, code: Some(code) },
    });
    assert_eq!(coded.accounts[0].code_hash.map(|change| change.1), Some(hash));
    let info = cache.layers.local_account_info(addr).expect("known");
    assert_eq!(info.balance, word(70));
    assert_eq!(info.nonce, 2);
    assert_eq!(info.code_hash, hash);
}

#[test]
fn purged_state_is_gone() {
    let addr = Address::repeat_byte(0x11);
    let mut cache = empty_cache();
    cache.absorb_fetched_account(addr, account(50));
    cache.inject_storage_batch(&[(addr, word(1), word(10)), (addr, word(2), word(20))]);
    let partial = cache.apply_update(&StateUpdate::Purge {
        address: addr,
        scope: PurgeScope::Slots(vec![word(1)]),
    });
    assert_eq!(partial.purged[0].slots_removed, 1);
    assert_eq!(cache.cached_storage_value(addr, word(1)), None);
    assert_eq!(cache.cached_storage_value(addr, word(2)), Some(word(20)));
    assert_eq!(cache.purge_contract_storage(addr), 1);
    assert!(!cache.layers.has_contract_storage(addr));
    cache.purge_account(addr);
    assert!(cache.layers.local_account_info(addr).is_none());
}

#[test]
fn restore_returns_to_the_checkpoint() {
    let addr = Address::repeat_byte(0x11);
    let mut cache = empty_cache();
    cache.insert_storage_slot(addr, word(1), word(5), None);
    let checkpoint = cache.checkpoint();
    cache.insert_storage_slot(addr, word(1), word(6), None);
    assert_eq!(cache.cached_storage_value(addr, word(1)), Some(word(6)));
    cache.restore(checkpoint);
    assert_eq!(cache.cached_storage_value(addr, word(1)), Some(word(5)));
}

#[test]
fn snapshots_agree_with_the_cache_after_every_kind_of_write() {
    let addr = Address::repeat_byte(0x11);
    let mut cache = empty_cache();
    cache.inject_storage_batch(&[(addr, word(1), word(10))]);
    cache.absorb_fetched_account(addr, account(5));
    let first = cache.snapshot();
    assert_eq!(first.storage_value(addr, word(1)), Some(word(10)));

    cache.apply_update(&set(addr, 1, 11));
    cache.inject_storage_batch(&[(addr, word(2), word(20))]);
    let second = cache.snapshot();
    assert_eq!(second.storage_value(addr, word(1)), Some(word(11)));
    assert_eq!(second.storage_value(addr, word(2)), Some(word(20)));
    assert_eq!(first.storage_value(addr, word(1)), Some(word(10)));
    assert_eq!(first.storage_value(addr, word(2)), None);

    let deep = cache.snapshot_deep_clone();
    assert_eq!(deep.storage_value(addr, word(2)), second.storage_value(addr, word(2)));
    assert_eq!(
        deep.account_info(addr).map(|info| info.balance),
        second.account_info(addr).map(|info| info.balance)
    );

    cache.purge_contract_storage(addr);
    assert_eq!(cache.snapshot().storage_value(addr, word(1)), None);
}

#[test]
fn decided_values_are_written_only_where_something_is_cached() {
    let addr = Address::repeat_byte(0x11);
    let mut cache = empty_cache();
    assert!(cache.modify_slot(addr, word(1), |_| None).is_none());
    cache.inject_storage_batch(&[(addr, word(1), word(3))]);
    let change = cache.modify_slot(addr, word(1), |v| v.map(|v| v.saturating_add(word(1))));
    assert_eq!(change.map(|c| (c.old, c.new)), Some((word(3), word(4))));

    cache.absorb_fetched_account(addr, account(5));
    let paid = cache.modify_account_balance(addr, |b| b.map(|b| b.saturating_add(word(1))));
    assert_eq!(paid.and_then(|c| c.balance), Some((word(5), word(6))));
}

#[test]
fn only_maintained_storage_is_loaded() {
    let kept = Address::repeat_byte(1);
    let partial = Address::repeat_byte(2);
    let dropped = Address::repeat_byte(3);
    let mut loaded = nothing();
    for address in [kept, partial, dropped] {
        let mut slots = SortedMap::new();
        slots.insert(word(1), word(10));
        slots.insert(word(2), word(20));
        loaded.storage.insert(address, slots);
    }
    let mut maintain_addresses = SortedSet::new();
    maintain_addresses.insert(kept);
    let mut only = SortedSet::new();
    only.insert(word(2));
    let mut maintain_slots = SortedMap::new();
    maintain_slots.insert(partial, only);
    let config = CacheConfig::new("dir".to_string(), 1, maintain_addresses, maintain_slots);
    let cache = EvmCacheBuilder::new().cache_config(config).build(None, None, loaded);
    assert_eq!(cache.cached_storage_value(kept, word(1)), Some(word(10)));
    assert_eq!(cache.cached_storage_value(partial, word(1)), None);
    assert_eq!(cache.cached_storage_value(partial, word(2)), Some(word(20)));
    assert_eq!(cache.cached_storage_value(dropped, word(1)), None);
}

#[test]
fn working_memory_only_grows() {
    let mut cache = empty_cache();
    let start = cache.shared_memory_capacity();
    cache.reserve_shared_memory(10);
    assert_eq!(cache.shared_memory_capacity(), start);
    cache.reserve_shared_memory(start + 1);
    assert_eq!(cache.shared_memory_capacity(), start + 1);
    let token = Address::repeat_byte(4);
    cache.immutable_cache_mut().set_token_decimals(token, 6);
    assert_eq!(cache.immutable_cache().get_token_decimals(token), Some(6));
}

#[test]
fn an_upsert_creates_the_account_even_where_nothing_differs() {
    let address = Address::repeat_byte(0x66);
    let mut cache = empty_cache();
    let patch = AccountPatch { balance: Some(word(0)), nonce: None, code: None };
    let created = cache.apply_update(&StateUpdate::AccountUpsert { address, patch });
    assert!(created.accounts.is_empty());
    let diff = cache.apply_update(&StateUpdate::BalanceDelta {
        address,
        delta: SlotDelta::Add(word(5)),
    });
    assert!(diff.skipped_balances.is_empty());
    assert_eq!(diff.accounts.len(), 1);
    assert_eq!(diff.accounts[0].balance, Some((word(0), word(5))));
}

#[test]
fn a_slot_decided_on_advances_the_generation() {
    let address = Address::repeat_byte(0x67);
    let mut cache = empty_cache();
    let before = cache.snapshot_generation();
    assert_eq!(cache.modify_slot(address, word(1), |_| None), None);
    assert_eq!(cache.snapshot_generation(), before);
    assert_eq!(cache.modify_slot(address, word(1), |_| Some(word(0))), None);
    assert_eq!(cache.snapshot_generation(), before + 1);
    assert!(cache.modify_slot(address, word(1), |_| Some(word(3))).is_some());
    assert_eq!(cache.snapshot_generation(), before + 2);
}

#[test]
fn caches_over_one_backend_share_it() {
    let address = Address::repeat_byte(0x68);
    let mut backend = SharedBackend::new(BlockId::number(5));
    backend.block_hashes.insert(4, B256::repeat_byte(4));
    let over = |backend: SharedBackend| {
        EvmCache::from_backend(backend, BlockId::number(5), 1, Some(5), None, EvmSpec::cancun())
    };
    let mut one = over(backend);
    assert_eq!(one.storage_batch_config(), StorageBatchConfig::default());
    assert_eq!(one.pinned_block(), BlockId::number(5));
    one.apply_update(&set(address, 1, 10));
    one.set_block(BlockId::number(9));

    let mut other = over(one.give_backend());
    assert_eq!(one.cached_storage_value(address, word(1)), None);
    assert_eq!(other.cached_storage_value(address, word(1)), Some(word(10)));
    assert_eq!(other.pinned_block(), BlockId::number(9));
    assert_eq!(other.block(), BlockId::number(5));
    assert_eq!(other.block_hashes.get(&4), Some(&B256::repeat_byte(4)));
    let before = other.snapshot();
    assert_eq!(before.storage_value(address, word(1)), Some(word(10)));

    one.take_backend(other.give_backend());
    one.apply_update(&set(address, 1, 11));
    other.take_backend(one.give_backend());
    assert_eq!(other.snapshot().storage_value(address, word(1)), Some(word(11)));
}
