use alloy_sol_types::SolValue;
use evm_fork_cache::access_list::{
    pays_for_posting, AccessList, AccessListCall, AccessListItem, SmartAccessList,
};
use evm_fork_cache::block::BlockId;
use evm_fork_cache::bulk_storage::config::{multicall3_address, BulkCallConfig};
use evm_fork_cache::bulk_storage::dispatch::overrides_for_bundle;
use evm_fork_cache::bulk_storage::planning::CallPlan;
use evm_fork_cache::bulk_storage::programs::{
    program_bundle_calldata, program_bundle_overrides, StorageProgram,
};
use evm_fork_cache::bytes::Bytes;
use evm_fork_cache::cache::account::AccountInfo;
use evm_fork_cache::cache::builder::EvmCacheBuilder;
use evm_fork_cache::cache::code_seeds::CodeSeedState;
use evm_fork_cache::cache::config::StorageFetchStrategy;
use evm_fork_cache::cache::context::{parse_evm_spec, EvmSpec};
use evm_fork_cache::cache::durable_checkpoint::{
    DurableCheckpointBlock, DurableCheckpointError, DurableCheckpointIdentity,
    DurableCheckpointMetadata, DurableCheckpointStore,
};
use evm_fork_cache::cache::evm_cache::{EvmCache, LoadedState};
use evm_fork_cache::cache::metadata::ImmutableDataCache;
use evm_fork_cache::cache::slot_observations::{SlotObservation, SlotObservationTracker};
use evm_fork_cache::cache::versioned::encode;
use evm_fork_cache::collections::SortedMap;
use evm_fork_cache::foreign::keccak_empty;
use evm_fork_cache::primitives::{Address, SlotKey, B256, U256};

fn word(n: u64) -> U256 {
    U256::from_u64(n)
}

fn code(byte: u8) -> Bytes {
    Bytes::from_slice(&[byte])
}

fn empty_cache() -> EvmCache {
    EvmCacheBuilder::new().build(
        None,
        None,
        LoadedState {
            accounts: SortedMap::new(),
            storage: SortedMap::new(),
            bytecodes: Vec::new(),
            code_seeds: SortedMap::new(),
            immutable: ImmutableDataCache::default(),
        },
    )
}

#[test]
fn calls_carry_their_gas() {
    let call = AccessListCall::new(Address::zero(), Address::repeat_byte(1), code(0)).with_gas(77);
    assert_eq!(call.gas, 77);
    assert_eq!(call.to, Address::repeat_byte(1));
}

#[test]
fn smart_lists_pay_off_or_not() {
    let items = || {
        vec![AccessListItem {
            address: Address::repeat_byte(1),
            storage_keys: vec![B256::repeat_byte(2)],
        }]
    };
    let list = || SmartAccessList::from_items(items());
    let whole = AccessList { items: items() };
    let dear = U256::from_u128(u128::MAX);
    assert_eq!(list().into_access_list_if_profitable(dear, word(1)), Some(whole));
    assert_eq!(list().into_access_list_if_profitable(word(1), dear), None);
    assert_eq!(list().into_access_list_if_profitable(word(0), word(1)), None);
    assert_eq!(list().into_access_list_if_profitable(dear, word(0)), None);
    assert_eq!(
        list().try_into_access_list_if_profitable(dear, word(1)),
        Ok(Some(AccessList { items: items() }))
    );
    assert_eq!(list().try_into_access_list_if_profitable(word(1), dear), Ok(None));
}

#[test]
fn bundles_share_one_set_of_overrides() {
    let target = Address::repeat_byte(1);
    let other = Address::repeat_byte(2);
    let plans = vec![
        CallPlan::Single { target, slots: vec![word(1)] },
        CallPlan::Multi { targets: vec![(target, vec![word(2)]), (other, vec![word(3)])] },
    ];
    let codes = overrides_for_bundle(&plans, &code(0xee), &code(0xdd));
    assert_eq!(codes.len(), 3);
    assert_eq!(codes.get(&target), Some(&code(0xee)));
    assert_eq!(codes.get(&other), Some(&code(0xee)));
    assert_eq!(codes.get(&multicall3_address()), Some(&code(0xdd)));
}

#[test]
fn program_bundles_are_multicalls() {
    let program = |byte: u8| StorageProgram {
        target: Address::repeat_byte(byte),
        code: code(byte),
        calldata: Bytes::from_slice(&[byte, byte]),
    };
    let programs = [program(1), program(2), program(3)];
    let positions = vec![0, 2];
    let codes = program_bundle_overrides(&programs, &positions, &code(0xdd));
    assert_eq!(codes.len(), 3);
    assert_eq!(codes.get(&Address::repeat_byte(3)), Some(&code(3)));
    assert_eq!(codes.get(&Address::repeat_byte(2)), None);
    assert_eq!(codes.get(&multicall3_address()), Some(&code(0xdd)));

    let data = program_bundle_calldata(&programs, &positions);
    let calls: Vec<(alloy_primitives::Address, bool, alloy_primitives::Bytes)> = [1u8, 3]
        .iter()
        .map(|byte| {
            (
                alloy_primitives::Address::repeat_byte(*byte),
                true,
                alloy_primitives::Bytes::copy_from_slice(&[*byte, *byte]),
            )
        })
        .collect();
    assert_eq!(&data.as_slice()[..4], &[0x82, 0xad, 0x56, 0xcb]);
    assert_eq!(&data.as_slice()[4..], (calls,).abi_encode_params().as_slice());
}

#[test]
fn builders_take_their_options() {
    let bulk = BulkCallConfig { max_slots_per_call: 5, ..BulkCallConfig::default() };
    let builder = EvmCacheBuilder::new().block(BlockId::number(9)).latest_block();
    assert_eq!(builder.block, BlockId::latest());
    let builder = builder.bulk_call_config(bulk);
    assert_eq!(builder.storage_fetch_strategy, StorageFetchStrategy::BulkCall(bulk));
    assert!(!builder.storage_fetch_strategy.is_default());
}

#[test]
fn checkpoint_metadata_carries_its_parts() {
    let block = DurableCheckpointBlock::new(7, B256::repeat_byte(7))
        .with_parent_hash(B256::repeat_byte(6))
        .with_timestamp(70);
    assert_eq!(block.parent_hash, Some(B256::repeat_byte(6)));
    assert_eq!(block.timestamp, Some(70));
    let identity = DurableCheckpointIdentity::new(1, "reader".to_string(), "v1".to_string());
    let metadata = DurableCheckpointMetadata::new(identity, block)
        .with_delivery_token(vec![1])
        .with_delivery_witness(B256::repeat_byte(5))
        .with_subscriber_checkpoint(vec![2])
        .with_runtime_checkpoint(vec![3]);
    assert_eq!(metadata.delivery_token, Some(vec![1]));
    assert_eq!(metadata.delivery_witness, Some(B256::repeat_byte(5)));
    assert_eq!(metadata.subscriber_checkpoint, Some(vec![2]));
    assert_eq!(metadata.runtime_checkpoint, Some(vec![3]));
}

#[test]
fn mapping_entries_are_hashed_like_solidity() {
    let mut cache = empty_cache();
    let token = Address::repeat_byte(0x20);
    let owner = Address::repeat_byte(0x30);
    let fetched = Some(AccountInfo::default());
    cache.insert_mapping_storage_slot(token, word(3), owner, word(42), fetched);
    let mut preimage = [0u8; 64];
    preimage[12..32].copy_from_slice(&[0x30; 20]);
    preimage[63] = 3;
    let digest = alloy_primitives::keccak256(preimage);
    let slot = U256::from_be_slice(digest.as_slice(), 0);
    assert_eq!(cache.cached_storage_value(token, slot), Some(word(42)));
}

#[test]
fn slots_are_counted_by_layer() {
    let mut cache = empty_cache();
    let near = Address::repeat_byte(0x41);
    let far = Address::repeat_byte(0x42);
    cache.ensure_account(near, Some(AccountInfo::default()));
    cache.insert_storage_slot(near, word(1), word(10), None);
    cache.absorb_fetched_slot(near, word(2), word(20));
    cache.absorb_fetched_slot(near, word(2), word(21));
    cache.absorb_fetched_slot(far, word(3), word(30));

    assert!(cache.has_contract_storage(near));
    assert!(!cache.has_contract_storage(Address::repeat_byte(0x43)));
    assert_eq!(cache.contract_storage_slot_count(near), 1);
    assert_eq!(cache.cache_db_storage_slot_count(near), 1);
    assert_eq!(cache.cache_db_storage_slot_count(far), 0);
    assert_eq!(cache.enumerate_contract_slots(near), vec![word(1), word(2)]);
    assert_eq!(cache.all_cached_contract_addresses(), vec![near, far]);
    assert_eq!(cache.cached_storage_value(near, word(2)), Some(word(20)));
}

#[test]
fn purges_take_what_they_name() {
    let mut cache = empty_cache();
    let first = Address::repeat_byte(0x51);
    let second = Address::repeat_byte(0x52);
    for address in [first, second] {
        cache.absorb_fetched_slot(address, word(1), word(10));
        cache.absorb_fetched_slot(address, word(2), word(20));
    }
    let generation = cache.snapshot_generation();
    assert_eq!(cache.purge_contract_slots(first, &[word(1), word(9)]), 1);
    assert_ne!(cache.snapshot_generation(), generation);
    assert_eq!(cache.cached_storage_value(first, word(1)), None);
    assert_eq!(cache.cached_storage_value(first, word(2)), Some(word(20)));
    assert_eq!(cache.purge_contracts_storage(&[first, second]), 3);
    assert_eq!(cache.all_cached_contract_addresses(), Vec::new());
}

#[test]
fn deployments_are_marked() {
    let mut cache = empty_cache();
    let address = Address::repeat_byte(0x61);
    cache.record_deployment(address);
    assert_eq!(
        cache.code_seed_state(&address),
        Some(CodeSeedState::Etched { code_hash: keccak_empty() })
    );
    assert_eq!(cache.etched_accounts(), vec![address]);
}

#[test]
fn context_setters_are_read_back() {
    let mut cache = empty_cache();
    cache.set_basefee(word(11));
    cache.set_chain_id(42);
    assert_eq!(cache.basefee(), Some(11));
    assert_eq!(cache.chain_id(), 42);
    cache.set_basefee(U256::max_value());
    assert_eq!(cache.basefee(), Some(u64::MAX));
}

#[test]
fn a_discarded_base_is_built_again() {
    let mut cache = empty_cache();
    let address = Address::repeat_byte(0x71);
    cache.absorb_fetched_slot(address, word(1), word(10));
    let before = cache.snapshot();
    cache.invalidate_snapshot_base();
    let after = cache.snapshot();
    assert_eq!(before.storage_value(address, word(1)), Some(word(10)));
    assert_eq!(after.storage_value(address, word(1)), Some(word(10)));
}

#[test]
fn saved_observations_go_on() {
    let address = Address::repeat_byte(0x81);
    let mut saved = SortedMap::new();
    saved.insert(
        SlotKey { address, slot: word(1) },
        SlotObservation {
            last_value: word(5),
            observation_count: 4,
            change_count: 1,
            last_checked: 9,
            last_changed: 3,
        },
    );
    let mut tracker = SlotObservationTracker::from_saved(saved);
    assert!(!tracker.dirty);
    assert_eq!(tracker.last_value(address, word(1)), Some(word(5)));
    assert!(tracker.observe(address, word(1), word(6), 10));
    assert!(tracker.dirty);
    tracker.mark_saved();
    assert!(!tracker.dirty);
}

#[test]
fn slot_observations_test_save_load_round_trip() {
    let mut tracker = SlotObservationTracker::new();
    let a = Address::repeat_byte(1);
    tracker.observe(a, word(0), word(100), 0);
    tracker.observe(a, word(4), word(200), 0);
    let data = tracker.save().unwrap().expect("there are new observations");
    tracker.mark_saved();
    assert_eq!(tracker.save(), Ok(None));
    assert!(
        data.starts_with(b"EFC-SOBS"),
        "slot observation files must carry a magic/version header"
    );

    let mut loaded = SlotObservationTracker::load(Some(&data));
    assert_eq!(loaded.len(), 2);
    assert_eq!(loaded.last_value(a, word(0)), Some(word(100)));
    assert_eq!(loaded.last_value(a, word(4)), Some(word(200)));
    assert!(loaded.take_skipped().is_empty());
    assert!(!loaded.dirty);
}

type ForeignObservation = (alloy_primitives::U256, u32, u32, u64, u64);

fn foreign_observations() -> Vec<u8> {
    let number = |n: u64| alloy_primitives::U256::from(n);
    let key = (alloy_primitives::Address::repeat_byte(1), number(4));
    let seen: ForeignObservation = (number(42), 3, 0, 2, 0);
    bincode::serialize(&vec![(key, seen)]).expect("serialize legacy observations")
}

#[test]
fn legacy_raw_bincode_loads_as_default() {
    let loaded = SlotObservationTracker::load(Some(&foreign_observations()));
    assert!(loaded.is_empty(), "legacy raw bincode must be treated as a cache miss");
}

#[test]
fn observation_files_load_or_count_as_empty() {
    let file = encode(b"EFC-SOBS", 1, &foreign_observations());
    let loaded = SlotObservationTracker::load(Some(&file));
    let key = SlotKey { address: Address::repeat_byte(1), slot: word(4) };
    assert_eq!(
        loaded.observations.get(&key),
        Some(&SlotObservation {
            last_value: word(42),
            observation_count: 3,
            change_count: 0,
            last_checked: 2,
            last_changed: 0,
        })
    );
    let mut again = SlotObservationTracker::from_saved(loaded.observations);
    again.dirty = true;
    assert_eq!(again.save(), Ok(Some(file.clone())));

    assert!(SlotObservationTracker::load(None).is_empty());
    assert!(SlotObservationTracker::load(Some(&file[..file.len() - 1])).is_empty());
    let mut other = file.clone();
    other[7] = 0;
    assert!(SlotObservationTracker::load(Some(&other)).is_empty());
    let mut later = file.clone();
    later[8] = 2;
    assert!(SlotObservationTracker::load(Some(&later)).is_empty());
}

#[test]
fn simulations_are_undone_by_restoring() {
    let mut cache = empty_cache();
    let address = Address::repeat_byte(0x91);
    cache.ensure_account(address, Some(AccountInfo::default()));
    cache.insert_storage_slot(address, word(1), word(10), None);
    let checkpoint = cache.checkpoint();
    cache.insert_storage_slot(address, word(1), word(11), None);
    cache.load_slot(address, word(2), word(20));
    cache.restore(checkpoint);
    assert_eq!(cache.cached_storage_value(address, word(1)), Some(word(10)));
    assert_eq!(cache.cached_storage_value(address, word(2)), Some(word(20)));
}

#[test]
fn savings_are_weighed_against_posting() {
    // 2 entries save 200 gas at 10 wei: 2000 wei.
    assert!(pays_for_posting(2, 1999, word(10), word(1)));
    assert!(!pays_for_posting(2, 2000, word(10), word(1)));
    assert!(!pays_for_posting(2, 0, word(0), word(1)));
    assert!(!pays_for_posting(2, 0, word(10), word(0)));
}

#[test]
fn files_open_against_their_digest() {
    let store = DurableCheckpointStore::new("checkpoint".to_string());
    let file = DurableCheckpointStore::seal(&[1, 2, 3]);
    let digest = B256::from_slice(&file, file.len() - 32);
    assert_eq!(store.open_against(&file, digest), Ok(vec![1, 2, 3]));
    assert_eq!(
        store.open_against(&file, B256::zero()),
        Err(DurableCheckpointError::ChecksumMismatch { path: "checkpoint".to_string() })
    );
    assert_eq!(
        store.open_against(&[0; 31], digest),
        Err(DurableCheckpointError::InvalidFormat { path: "checkpoint".to_string() })
    );
    assert_eq!(store.open(&file), Ok(vec![1, 2, 3]));
}

#[test]
fn hardfork_names_fold_case_beyond_ascii() {
    assert_eq!(parse_evm_spec("osa\u{212a}a"), EvmSpec { id: 19 });
    assert_eq!(parse_evm_spec("\u{17f}hanghai"), EvmSpec { id: 16 });
    assert_eq!(parse_evm_spec("pRAGUE"), EvmSpec { id: 18 });
    assert_eq!(parse_evm_spec("\u{df}hanghai"), EvmSpec::cancun());
}
