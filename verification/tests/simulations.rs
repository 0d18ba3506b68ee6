use evm_fork_cache::access_list::{AccessList, AccessListItem};
use evm_fork_cache::bundle::{BundleAction, BundleRun, BundleTx, RevertPolicy};
use evm_fork_cache::bytes::Bytes;
use evm_fork_cache::cache::account::AccountInfo;
use evm_fork_cache::cache::balance_scan::{
    probe_value, BalanceAction, BalanceEvent, BalanceRun, PROBE_VALUE,
};
use evm_fork_cache::cache::builder::EvmCacheBuilder;
use evm_fork_cache::cache::config::{SimStatus, TxConfig};
use evm_fork_cache::cache::delta_run::{DeltaAction, DeltaRun};
use evm_fork_cache::cache::erc20::{
    allowance_calldata, balance_of_calldata, call_logs, decimals_calldata, erc20_allowance,
    erc20_balance,
};
use evm_fork_cache::cache::evm_cache::{EvmCache, LoadedState};
use evm_fork_cache::cache::hashed_slots::{
    best_allowance_access, best_balance_access, discovered_balance_slot, returned_value, slots_for,
    HashSlotAccess,
};
use evm_fork_cache::cache::mapping::{SlotLayout, TrackedMapping};
use evm_fork_cache::cache::metadata::ImmutableDataCache;
use evm_fork_cache::collections::SortedMap;
use evm_fork_cache::errors::CacheError;
use evm_fork_cache::execution::{
    balance_deltas, deployed_address, settle_inspected, settle_tracked, DeploymentError,
    ExecutionResult, JournalAction, Log, SimError, SuccessReason,
};
use evm_fork_cache::primitives::{Address, B256, U256};

fn word(n: u64) -> U256 {
    U256::from_u64(n)
}

fn empty_cache() -> EvmCache {
    EvmCacheBuilder::new().build(
        None,
        None,
        LoadedState {
            accounts: SortedMap::new(),
            storage: SortedMap::new(),
            bytecodes: Vec::new(),
            code_seeds: SortedMap::new(),
            immutable: ImmutableDataCache::default(),
        },
    )
}

fn returned(value: U256) -> ExecutionResult {
    let mut data = Vec::new();
    value.append_to(&mut data);
    success(data)
}

fn success(data: Vec<u8>) -> ExecutionResult {
    ExecutionResult::Success {
        reason: SuccessReason::Return,
        gas_refunded: 0,
        gas_used: 10,
        logs: vec![Log {
            address: Address::repeat_byte(1),
            topics: vec![B256::repeat_byte(2)],
            data: Bytes::new(),
        }],
        output: Bytes::from_vec(data),
        created: None,
    }
}

fn reverted() -> ExecutionResult {
    ExecutionResult::Revert { gas_used: 5, output: Bytes::from_vec(vec![9]) }
}

fn halted() -> ExecutionResult {
    ExecutionResult::Halt { reason: "OutOfGas".to_string(), gas_used: 7 }
}

fn touched(byte: u8) -> AccessList {
    AccessList {
        items: vec![AccessListItem { address: Address::repeat_byte(byte), storage_keys: Vec::new() }],
    }
}

#[test]
fn bundle_tx_new_uses_default_tx_config() {
    let from = Address::repeat_byte(0x01);
    let to = Address::repeat_byte(0x02);
    let tx = BundleTx::new(from, to, Bytes::from_vec(vec![0xaa]));
    assert_eq!(tx.from, from);
    assert_eq!(tx.to, to);
    assert_eq!(tx.calldata, Bytes::from_vec(vec![0xaa]));
    assert_eq!(tx.tx.value, U256::zero());
    assert!(tx.tx.gas_price.is_none());
    assert!(tx.tx.access_list.is_none());
}

#[test]
fn bundle_tx_with_config_carries_value_and_gas_price() {
    let tx = BundleTx::with_config(
        Address::zero(),
        Address::zero(),
        Bytes::new(),
        TxConfig { value: word(42), gas_price: Some(7), ..Default::default() },
    );
    assert_eq!(tx.tx.value, word(42));
    assert_eq!(tx.tx.gas_price, Some(7));
}

#[test]
fn a_bundle_ends_with_the_first_failure_it_does_not_allow() {
    let mut run = BundleRun::new(3);
    assert_eq!(run.next(), Some(0));
    assert_eq!(run.record(success(vec![]), &RevertPolicy::Atomic), BundleAction::Keep);
    assert_eq!(run.record(reverted(), &RevertPolicy::Atomic), BundleAction::UndoBundle);
    assert_eq!(run.next(), None);
    let (result, action) = run.finish(word(1), Some(word(9)), true);
    assert!(!result.succeeded);
    assert_eq!(result.coinbase_payment, U256::zero());
    assert_eq!(result.gas_used, 15);
    assert_eq!(result.per_tx.len(), 2);
    assert!(result.per_tx[1].reverted);
    assert_eq!(action, JournalAction::Revert);
}

#[test]
fn allowed_failures_are_undone_alone() {
    let policy = RevertPolicy::AllowReverts(vec![1]);
    let mut run = BundleRun::new(3);
    assert_eq!(run.record(success(vec![]), &policy), BundleAction::Keep);
    assert_eq!(run.record(halted(), &policy), BundleAction::UndoTransaction);
    assert_eq!(run.record(success(vec![]), &policy), BundleAction::Keep);
    assert_eq!(run.next(), None);
    let (result, action) = run.finish(word(1), Some(word(9)), true);
    assert!(result.succeeded);
    assert_eq!(result.coinbase_payment, word(8));
    assert_eq!(result.gas_used, 27);
    assert_eq!(action, JournalAction::Commit);
}

#[test]
fn state_is_kept_only_where_asked_and_returned() {
    assert_eq!(settle_inspected(&success(vec![]), true), JournalAction::Commit);
    assert_eq!(settle_inspected(&success(vec![]), false), JournalAction::Revert);
    assert_eq!(settle_inspected(&reverted(), true), JournalAction::Revert);
    let (action, result) = settle_tracked(success(vec![1]), SortedMap::new(), touched(1), true);
    assert_eq!(action, JournalAction::Commit);
    assert!(matches!(result, Ok(sim) if sim.status == SimStatus::Success && sim.gas_used == 10));
    let (action, result) = settle_tracked(reverted(), SortedMap::new(), touched(1), true);
    assert_eq!(action, JournalAction::Revert);
    assert!(matches!(result, Err(SimError::Revert { gas_used: 5, .. })));
    let (_, result) = settle_tracked(halted(), SortedMap::new(), touched(1), true);
    assert!(matches!(result, Err(SimError::Halt { gas_used: 7, .. })));
}

#[test]
fn deployments_give_their_address_or_why_not() {
    let address = Address::repeat_byte(8);
    let deployed = ExecutionResult::Success {
        reason: SuccessReason::Return,
        gas_refunded: 0,
        gas_used: 1,
        logs: Vec::new(),
        output: Bytes::new(),
        created: Some(address),
    };
    assert_eq!(deployed_address(deployed), Ok(address));
    assert_eq!(deployed_address(success(vec![])), Err(DeploymentError::MissingAddress));
    assert!(matches!(deployed_address(reverted()), Err(DeploymentError::Reverted { .. })));
    assert!(matches!(deployed_address(halted()), Err(DeploymentError::Halted { .. })));
}

#[test]
fn token_calls_are_selector_and_words() {
    let owner = Address::repeat_byte(0x11);
    let spender = Address::repeat_byte(0x22);
    let balance = balance_of_calldata(owner);
    assert_eq!(&balance.as_slice()[..4], &[0x70, 0xa0, 0x82, 0x31]);
    assert_eq!(&balance.as_slice()[4..16], &[0u8; 12]);
    assert_eq!(&balance.as_slice()[16..], &[0x11u8; 20]);
    let allowance = allowance_calldata(owner, spender);
    assert_eq!(&allowance.as_slice()[..4], &[0xdd, 0x62, 0xed, 0x3e]);
    assert_eq!(allowance.len(), 68);
    assert_eq!(&allowance.as_slice()[48..], &[0x22u8; 20]);
    assert_eq!(decimals_calldata().as_slice(), &[0x31, 0x3c, 0xe5, 0x67]);
}

#[test]
fn selectors_are_hashes_of_signatures() {
    let selector = |signature: &str| alloy_primitives::keccak256(signature.as_bytes())[..4].to_vec();
    let owner = Address::zero();
    assert_eq!(balance_of_calldata(owner).as_slice()[..4], selector("balanceOf(address)"));
    assert_eq!(
        allowance_calldata(owner, owner).as_slice()[..4],
        selector("allowance(address,address)")
    );
    assert_eq!(decimals_calldata().as_slice(), selector("decimals()"));
}

#[test]
fn token_reads_are_the_returned_word() {
    assert_eq!(erc20_balance(returned(word(77))), Ok(word(77)));
    assert_eq!(erc20_allowance(returned(word(78))), Ok(word(78)));
    assert_eq!(
        erc20_balance(success(vec![1; 31])),
        Err(CacheError::Decode {
            what: "ERC20 balanceOf return data",
            details: "Overrun".to_string()
        })
    );
    assert_eq!(
        erc20_allowance(success(vec![])),
        Err(CacheError::Decode {
            what: "ERC20 allowance return data",
            details: "Overrun".to_string()
        })
    );
    assert_eq!(
        erc20_balance(reverted()),
        Err(CacheError::CallNotSuccessful { result: reverted() })
    );
    let (logs, gas) = call_logs(success(vec![])).expect("it returned");
    assert_eq!((logs.len(), gas), (1, 10));
    assert_eq!(
        call_logs(halted()),
        Err(CacheError::CallNotSuccessful { result: halted() })
    );
}

#[test]
fn decimals_are_remembered() {
    let token = Address::repeat_byte(5);
    let mut cache = empty_cache();
    assert_eq!(cache.known_decimals(token), None);
    assert_eq!(
        cache.erc20_decimals(token, success(vec![0; 3])),
        Err(CacheError::Decode {
            what: "ERC20 decimals return data",
            details: "Overrun".to_string()
        })
    );
    assert_eq!(
        cache.erc20_decimals(token, reverted()),
        Err(CacheError::CallNotSuccessful { result: reverted() })
    );
    assert_eq!(cache.erc20_decimals(token, returned(word(6))), Ok(6));
    assert_eq!(cache.erc20_decimals(token, reverted()), Ok(6));
    assert_eq!(cache.immutable_cache().get_token_decimals(token), Some(6));
}

#[test]
fn deltas_are_differences_of_balances() {
    let a = Address::repeat_byte(1);
    let b = Address::repeat_byte(2);
    let deltas = balance_deltas(&vec![(a, word(10)), (b, word(5))], &vec![(a, word(13)), (b, word(4))]);
    assert_eq!(deltas.get(&a), Some(&word(3)));
    assert_eq!(deltas.get(&b), Some(&U256::max_value()));
}

#[test]
fn a_measurement_reads_runs_and_reads_again() {
    let token = Address::repeat_byte(1);
    let mut run = DeltaRun::new(vec![token], true);
    assert_eq!(run.next(), DeltaAction::ReadBefore { token });
    run.record_balance(Ok((word(10), touched(3))));
    assert_eq!(run.next(), DeltaAction::RunCall);
    run.record_call(success(vec![7]), touched(4));
    assert_eq!(run.next(), DeltaAction::ReadAfter { token });
    run.record_balance(Ok((word(15), touched(3))));
    assert_eq!(run.next(), DeltaAction::Finish);
    let (action, result) = run.finish();
    assert_eq!(action, JournalAction::Commit);
    let sim = result.unwrap_or_else(|_| panic!("nothing failed"));
    assert_eq!(sim.token_deltas.get(&token), Some(&word(5)));
    assert_eq!(sim.access_list.items.len(), 2);
    assert_eq!(sim.gas_used, 10);
}

#[test]
fn a_measurement_that_fails_is_undone() {
    let token = Address::repeat_byte(1);
    let mut run = DeltaRun::new(vec![token], true);
    run.record_balance(Ok((word(10), touched(3))));
    run.record_call(reverted(), touched(4));
    assert_eq!(run.next(), DeltaAction::Finish);
    let (action, result) = run.finish();
    assert_eq!(action, JournalAction::Revert);
    assert_eq!(result.err(), Some(CacheError::CallNotSuccessful { result: reverted() }));

    let mut run = DeltaRun::new(vec![token], true);
    run.record_balance(Err(CacheError::CallNotSuccessful { result: halted() }));
    let (_, result) = run.finish();
    assert_eq!(result.err(), Some(CacheError::CallNotSuccessful { result: halted() }));
}

fn mapping(token: Address, base_slot: u64, layout: SlotLayout) -> TrackedMapping {
    TrackedMapping::new(token, word(base_slot), layout)
}

#[test]
fn entries_lie_at_the_hash_of_key_and_base_slot() {
    let token = Address::repeat_byte(1);
    let owner = Address::repeat_byte(2);
    let mut preimage = Vec::new();
    owner.into_word().append_to(&mut preimage);
    word(3).append_to(&mut preimage);
    let expected = alloy_primitives::keccak256(&preimage);
    let slot = mapping(token, 3, SlotLayout::SolidityMapping).slot_for(owner.into_word());
    assert_eq!(slot, Some(U256::from_be_slice(expected.as_slice(), 0)));
    let vyper = mapping(token, 3, SlotLayout::VyperMapping).slot_for(owner.into_word());
    assert_ne!(vyper, slot);
    let packed = mapping(token, 0x87a2_11a2, SlotLayout::PackedMapping);
    let mut preimage = owner.to_vec();
    preimage.extend_from_slice(&[0, 0, 0, 0, 0, 0, 0, 0, 0x87, 0xa2, 0x11, 0xa2]);
    let digest = alloy_primitives::keccak256(preimage);
    assert_eq!(
        packed.slot_for(owner.into_word()),
        Some(U256::from_be_slice(digest.as_slice(), 0))
    );
    assert_eq!(mapping(token, 3, SlotLayout::Underived).slot_for(owner.into_word()), None);
    assert_eq!(
        slots_for(&mapping(token, 3, SlotLayout::SolidityMapping), &vec![owner]),
        vec![(owner, slot.unwrap())]
    );
}

#[test]
fn a_known_mapping_is_used_and_given_up_when_wrong() {
    let token = Address::repeat_byte(1);
    let owner = Address::repeat_byte(2);
    let known = mapping(token, 3, SlotLayout::SolidityMapping);
    let mut cache = empty_cache();
    cache.seed_erc20_balance_slots(&[(token, word(3))]);
    let account = Some(AccountInfo::default());
    let mut run =
        BalanceRun::start(&mut cache, token, owner, word(50), 1, account.clone()).expect("derived");
    assert_eq!(run.next(), BalanceAction::ReadBalance);
    let slot = known.slot_for(owner.into_word()).unwrap();
    assert_eq!(cache.cached_storage_value(token, slot), Some(word(50)));
    run.record(&mut cache, BalanceEvent::Balance(word(50))).unwrap();
    assert_eq!(run.next(), BalanceAction::Finish { verified: true });
    assert_eq!(cache.erc20_balance_slots.get(&token), Some(&known));

    let mut run = BalanceRun::start(&mut cache, token, owner, word(60), 1, account).unwrap();
    run.record(&mut cache, BalanceEvent::Balance(word(1))).unwrap();
    assert_eq!(run.next(), BalanceAction::Discover);
    assert!(!cache.erc20_balance_slots.contains_key(&token));
}

#[test]
fn a_scan_finds_the_base_slot_or_leaves_no_trace() {
    let token = Address::repeat_byte(1);
    let owner = Address::repeat_byte(2);
    let mut cache = empty_cache();
    let account = Some(AccountInfo::default());
    let entry = |index: u64| {
        mapping(token, index, SlotLayout::SolidityMapping).slot_for(owner.into_word()).unwrap()
    };

    let mut run =
        BalanceRun::start(&mut cache, token, owner, word(50), 1, account.clone()).unwrap();
    run.record(&mut cache, BalanceEvent::Discovered(None)).unwrap();
    run.record(&mut cache, BalanceEvent::Balance(word(0))).unwrap();
    assert_eq!(cache.cached_storage_value(token, entry(0)), Some(word(PROBE_VALUE)));
    run.record(&mut cache, BalanceEvent::Balance(word(0))).unwrap();
    assert_eq!(cache.cached_storage_value(token, entry(1)), Some(word(PROBE_VALUE)));
    assert_eq!(cache.cached_storage_value(token, entry(0)), None);
    run.record(&mut cache, BalanceEvent::Balance(word(PROBE_VALUE))).unwrap();
    assert_eq!(cache.cached_storage_value(token, entry(1)), Some(word(50)));
    run.record(&mut cache, BalanceEvent::Balance(word(50))).unwrap();
    assert_eq!(run.next(), BalanceAction::Finish { verified: true });
    assert_eq!(
        cache.erc20_balance_slots.get(&token),
        Some(&mapping(token, 1, SlotLayout::SolidityMapping))
    );

    let mut cache = empty_cache();
    let mut run = BalanceRun::start(&mut cache, token, owner, word(50), 1, account).unwrap();
    run.record(&mut cache, BalanceEvent::Discovered(None)).unwrap();
    for _ in 0..3 {
        run.record(&mut cache, BalanceEvent::Balance(word(0))).unwrap();
    }
    assert_eq!(run.next(), BalanceAction::Finish { verified: false });
    assert_eq!(cache.cached_storage_value(token, entry(0)), None);
    assert_eq!(cache.cached_storage_value(token, entry(1)), None);
    assert_eq!(probe_value(word(PROBE_VALUE)), word(PROBE_VALUE + 1));
}

#[test]
fn a_discovered_mapping_is_kept_once_read_back() {
    let token = Address::repeat_byte(1);
    let owner = Address::repeat_byte(2);
    let found = mapping(token, 9, SlotLayout::VyperMapping);
    let mut cache = empty_cache();
    let mut run = BalanceRun::start(&mut cache, token, owner, word(50), 0, None).unwrap();
    assert_eq!(run.next(), BalanceAction::Discover);
    run.record(&mut cache, BalanceEvent::Discovered(Some(found))).unwrap();
    assert_eq!(run.next(), BalanceAction::ReadBalance);
    run.record(&mut cache, BalanceEvent::Balance(word(50))).unwrap();
    assert_eq!(cache.erc20_balance_slots.get(&token), Some(&found));

    let underived = mapping(token, 9, SlotLayout::Underived);
    let mut run = BalanceRun::start(&mut cache, owner, owner, word(50), 0, None).unwrap();
    let refused = CacheError::StorageInsert {
        address: token,
        slot: U256::zero(),
        details: "layout Underived does not support single-key slot derivation".to_string(),
    };
    assert_eq!(
        run.record(&mut cache, BalanceEvent::Discovered(Some(underived))),
        Err(refused)
    );
    cache.seed_erc20_balance_layouts(&[underived]);
    let known = BalanceRun::start(&mut cache, token, owner, word(50), 0, None);
    assert!(matches!(
        known.err(),
        Some(CacheError::StorageInsert { address, .. }) if address == token
    ));
}

fn access(slot: u64, value: u64, keys: &[Address], confidence: u8, depth: usize) -> HashSlotAccess {
    HashSlotAccess {
        slot: word(slot),
        value: word(value),
        keys: keys.iter().map(|key| key.into_word()).collect(),
        confidence,
        depth,
        mapping: None,
    }
}

#[test]
fn the_read_that_matches_the_balance_is_preferred() {
    let owner = Address::repeat_byte(2);
    let other = Address::repeat_byte(3);
    let accesses = vec![
        access(1, 77, &[other], 9, 1),
        access(2, 5, &[owner], 9, 1),
        access(3, 77, &[owner], 1, 3),
        access(4, 77, &[owner], 1, 2),
    ];
    assert_eq!(best_balance_access(&accesses, owner, word(77)), Some(3));
    assert_eq!(best_balance_access(&accesses, owner, word(1)), Some(1));
    assert_eq!(best_balance_access(&accesses, Address::repeat_byte(9), word(77)), None);
    assert_eq!(discovered_balance_slot(&returned(word(77)), &accesses, owner), Some(3));
    assert_eq!(discovered_balance_slot(&reverted(), &accesses, owner), None);
    assert_eq!(returned_value(&[1, 2]), word(258));
}

#[test]
fn allowances_are_written_at_the_deepest_read_of_both_keys() {
    let token = Address::repeat_byte(1);
    let owner = Address::repeat_byte(2);
    let spender = Address::repeat_byte(3);
    let accesses = vec![
        access(1, 0, &[owner], 9, 5),
        access(2, 0, &[owner, spender], 1, 1),
        access(3, 0, &[spender, owner], 1, 2),
    ];
    assert_eq!(best_allowance_access(&accesses, owner, spender), Some(2));
    let mut cache = empty_cache();
    assert!(cache.write_allowance(token, owner, spender, word(8), &accesses, None));
    assert_eq!(cache.cached_storage_value(token, word(3)), Some(word(8)));
    assert!(!cache.write_allowance(token, owner, Address::repeat_byte(9), word(8), &accesses, None));
}

#[test]
fn holders_are_followed_through_one_discovery() {
    let token = Address::repeat_byte(1);
    let holder = Address::repeat_byte(2);
    let found = mapping(token, 4, SlotLayout::SolidityMapping);
    let mut cache = empty_cache();
    let none = cache.track_erc20_balances(token, &Vec::new(), |_| Ok(Some(found)));
    assert_eq!(none, Ok(None));
    let hit = cache.track_erc20_balances(token, &vec![holder], |_| Ok(Some(found)));
    let slot = found.slot_for(holder.into_word()).unwrap();
    assert_eq!(hit, Ok(Some((found, vec![(holder, slot)]))));
    let again = cache.track_erc20_balances(token, &vec![holder], |_| Err(CacheError::MissingStorageBatchFetcher));
    assert_eq!(again, Ok(Some((found, vec![(holder, slot)]))));
    let other = Address::repeat_byte(7);
    let failed = cache.track_erc20_balances(other, &vec![holder], |_| Err(CacheError::MissingStorageBatchFetcher));
    assert_eq!(failed, Err(CacheError::MissingStorageBatchFetcher));
    cache.seed_erc20_balance_layouts(&[mapping(other, 1, SlotLayout::VyperMapping)]);
    assert!(cache.erc20_balance_slots.contains_key(&other));
}
