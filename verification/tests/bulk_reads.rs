use alloy_sol_types::SolValue;
use evm_fork_cache::block::{BlockId, BlockNumberOrTag};
use evm_fork_cache::bulk_storage::config::{
    multicall3_address, BulkCallConfig, CallDispatch, STORAGE_EXTRACTOR_CODE,
    STORAGE_EXTRACTOR_CODE_PRE_SHANGHAI,
};
use evm_fork_cache::bulk_storage::dispatch::{
    decode_call_many, encode_multi_target_calldata, group_plans_for_call_many, overrides_for_plan,
    plan_call_parts, plan_shipping, planned_call_count, CallManyEntry, Shipping,
};
use evm_fork_cache::bulk_storage::fetcher::{Attempt, BulkFetcher, Route};
use evm_fork_cache::bulk_storage::packing::{decode_packed_values, pack_slots_calldata};
use evm_fork_cache::bulk_storage::planning::{plan_calls, CallPlan};
use evm_fork_cache::bulk_storage::programs::{
    account_fields_program, block_context_program, decode_account_fields, decode_block_context,
    place_program_results, program_bundle_results, split_programs, StorageProgram,
};
use evm_fork_cache::bulk_storage::response::{
    decode_multi_target_response, decode_plan_response, SlotResult,
};
use evm_fork_cache::bytes::Bytes;
use evm_fork_cache::cache::config::StorageBatchConfig;
use evm_fork_cache::cache::hydration::AccountProof;
use evm_fork_cache::cache::point_reads::{
    fail_bulk_without_runtime, fail_proofs_without_runtime, fail_without_runtime, plan_batches,
    proof_concurrency, settle_batch, settle_proof, CallReply, ProofReply,
};
use evm_fork_cache::errors::{RuntimeError, StorageFetchError};
use evm_fork_cache::primitives::{Address, B256, U256};

fn addr(byte: u8) -> Address {
    Address::repeat_byte(byte)
}

fn word(n: u64) -> U256 {
    U256::from_u64(n)
}

fn cfg(max_slots: usize, max_targets: usize) -> BulkCallConfig {
    BulkCallConfig {
        max_slots_per_call: max_slots,
        max_targets_per_call: max_targets,
        ..BulkCallConfig::default()
    }
}

#[test]
fn pack_and_decode_roundtrip() {
    let slots = vec![U256::zero(), word(1), U256::max_value()];
    let packed = pack_slots_calldata(&slots);
    assert_eq!(packed.len(), 96);
    let mut one = Vec::new();
    word(1).append_to(&mut one);
    assert_eq!(&packed.as_slice()[32..64], one.as_slice());
    let decoded = decode_packed_values(packed.as_slice(), 3).expect("exact length");
    assert_eq!(decoded, slots);
    assert!(decode_packed_values(packed.as_slice(), 2).is_none());
    assert!(decode_packed_values(&packed.as_slice()[..95], 3).is_none());
}

#[test]
fn extractor_constants_are_wellformed() {
    assert_eq!(STORAGE_EXTRACTOR_CODE.len(), 23);
    assert_eq!(STORAGE_EXTRACTOR_CODE[0], 0x5f, "PUSH0 entry");
    assert_eq!(STORAGE_EXTRACTOR_CODE_PRE_SHANGHAI.len(), 25);
    assert!(
        !STORAGE_EXTRACTOR_CODE_PRE_SHANGHAI.contains(&0x5f),
        "pre-Shanghai variant must not use PUSH0"
    );
}

#[test]
fn planning_single_small_group() {
    let requests = vec![(addr(0xaa), word(1)), (addr(0xaa), word(2))];
    let plans = plan_calls(&requests, &cfg(100, 10));
    assert_eq!(
        plans,
        vec![CallPlan::Single { target: addr(0xaa), slots: vec![word(1), word(2)] }]
    );
}

#[test]
fn planning_splits_oversized_target_and_packs_remainder() {
    let mut requests: Vec<_> = (0..7u64).map(|i| (addr(0x01), word(i))).collect();
    requests.push((addr(0x02), word(99)));
    let plans = plan_calls(&requests, &cfg(3, 10));
    assert_eq!(plans.len(), 3);
    assert_eq!(
        plans[0],
        CallPlan::Single { target: addr(0x01), slots: (0..3u64).map(word).collect() }
    );
    assert_eq!(
        plans[1],
        CallPlan::Single { target: addr(0x01), slots: (3..6u64).map(word).collect() }
    );
    assert_eq!(
        plans[2],
        CallPlan::Multi {
            targets: vec![(addr(0x01), vec![word(6)]), (addr(0x02), vec![word(99)])],
        }
    );
    let planned: usize = plans.iter().map(CallPlan::request_slot_count).sum();
    assert_eq!(planned, requests.len());
}

#[test]
fn planning_respects_target_budget() {
    let requests: Vec<_> = (0..5u8).map(|i| (addr(i + 1), word(i as u64))).collect();
    let plans = plan_calls(&requests, &cfg(100, 2));
    assert_eq!(plans.len(), 3);
    assert!(matches!(&plans[0], CallPlan::Multi { targets } if targets.len() == 2));
    assert!(matches!(&plans[1], CallPlan::Multi { targets } if targets.len() == 2));
    assert!(matches!(&plans[2], CallPlan::Single { .. }));
}

#[test]
fn planning_lone_remainder_degrades_to_single_call() {
    let requests: Vec<_> = (0..4u64).map(|i| (addr(0x01), word(i))).collect();
    let plans = plan_calls(&requests, &cfg(3, 10));
    assert_eq!(plans.len(), 2);
    assert!(matches!(&plans[1], CallPlan::Single { slots, .. } if slots.len() == 1));
}

#[test]
fn planning_isolates_dispatcher_address_collision() {
    let requests = vec![
        (multicall3_address(), word(1)),
        (addr(0x02), word(2)),
        (addr(0x03), word(3)),
    ];
    let plans = plan_calls(&requests, &cfg(100, 10));
    assert_eq!(
        plans[0],
        CallPlan::Single { target: multicall3_address(), slots: vec![word(1)] }
    );
    assert!(matches!(&plans[1], CallPlan::Multi { targets } if targets.len() == 2));
}

#[test]
fn multi_target_overrides_include_dispatcher_and_extractors() {
    let plan = CallPlan::Multi {
        targets: vec![(addr(0x02), vec![word(1)]), (addr(0x03), vec![word(2)])],
    };
    let extractor = Bytes::from_slice(&STORAGE_EXTRACTOR_CODE);
    let dispatcher = Bytes::from_vec(vec![0x60, 0x80, 0x60, 0x40]);
    let overrides = overrides_for_plan(&plan, &extractor, &dispatcher);
    assert_eq!(overrides.len(), 3);
    assert_eq!(overrides.get(&multicall3_address()), Some(&dispatcher));
    assert_eq!(overrides.get(&addr(0x02)), Some(&extractor));
    assert_eq!(overrides.get(&addr(0x03)), Some(&extractor));
}

#[test]
fn call_many_grouping_respects_request_budget() {
    let plans = vec![
        CallPlan::Single { target: addr(0x01), slots: (0..6u64).map(word).collect() },
        CallPlan::Single { target: addr(0x02), slots: (0..6u64).map(word).collect() },
        CallPlan::Single { target: addr(0x03), slots: (0..2u64).map(word).collect() },
    ];
    let groups = group_plans_for_call_many(plans, 10);
    assert_eq!(groups.len(), 2);
    assert_eq!(groups[0].len(), 1);
    assert_eq!(groups[1].len(), 2);
    let total: usize = groups.iter().flatten().map(CallPlan::request_slot_count).sum();
    assert_eq!(total, 14);
}

fn aggregate_returns(results: Vec<(bool, Vec<u8>)>) -> Vec<u8> {
    let list: Vec<(bool, alloy_primitives::Bytes)> = results
        .into_iter()
        .map(|(success, data)| (success, alloy_primitives::Bytes::from(data)))
        .collect();
    (list,).abi_encode_sequence()
}

#[test]
fn multi_target_response_decodes_per_target_failures() {
    let targets = vec![
        (addr(0x02), vec![word(1), word(2)]),
        (addr(0x03), vec![word(3)]),
    ];
    let response = aggregate_returns(vec![
        (true, pack_slots_calldata(&[word(11), word(22)]).as_slice().to_vec()),
        (false, Vec::new()),
    ]);
    let results = decode_multi_target_response(&targets, &response);
    assert_eq!(results.len(), 3);
    assert!(matches!(results[0], (_, _, Ok(v)) if v == word(11)));
    assert!(matches!(results[1], (_, _, Ok(v)) if v == word(22)));
    assert!(results[2].2.is_err());
}

#[test]
fn multi_target_response_reports_what_is_wrong_with_it() {
    let targets = vec![(addr(0x02), vec![word(1)]), (addr(0x03), vec![word(3)])];
    let garbled = decode_multi_target_response(&targets, &[1, 2, 3]);
    assert!(garbled
        .iter()
        .all(|(_, _, r)| matches!(r, Err(StorageFetchError::ResponseDecode { .. }))));

    let short = aggregate_returns(vec![(true, vec![0; 32])]);
    let counted = decode_multi_target_response(&targets, &short);
    assert!(counted.iter().all(|(_, _, r)| matches!(
        r,
        Err(StorageFetchError::ResultCount { returned: 1, expected: 2 })
    )));

    let uneven = aggregate_returns(vec![(true, vec![0; 31]), (false, Vec::new())]);
    let each = decode_multi_target_response(&targets, &uneven);
    assert!(matches!(
        each[0].2,
        Err(StorageFetchError::SubcallLength { returned: 31, expected_words: 1, .. })
    ));
    assert!(matches!(each[1].2, Err(StorageFetchError::SubcallFailed)));
}

#[test]
fn direct_response_is_values_side_by_side() {
    let plan = CallPlan::Single { target: addr(7), slots: vec![word(1), word(2)] };
    let data = pack_slots_calldata(&[word(5), word(6)]);
    let results = decode_plan_response(&plan, data.as_slice());
    assert_eq!(
        results,
        vec![(addr(7), word(1), Ok(word(5))), (addr(7), word(2), Ok(word(6)))]
    );
    assert!(decode_plan_response(&plan, &data.as_slice()[..33])
        .iter()
        .all(|(_, _, r)| r.is_err()));
}

#[test]
fn calldata_of_a_direct_call_is_the_packed_slots() {
    let plan = CallPlan::Single { target: addr(7), slots: vec![word(9)] };
    let (to, data) = plan_call_parts(&plan);
    assert_eq!(to, addr(7));
    assert_eq!(data, pack_slots_calldata(&[word(9)]));
}

#[test]
fn calldata_of_a_multicall_is_abi_encoded() {
    let targets = vec![(addr(7), vec![word(9)])];
    let data = encode_multi_target_calldata(&targets);
    let list = vec![(
        alloy_primitives::Address::repeat_byte(7),
        true,
        alloy_primitives::Bytes::from(pack_slots_calldata(&[word(9)]).as_slice().to_vec()),
    )];
    let mut expected = vec![0x82, 0xad, 0x56, 0xcb];
    expected.extend((list,).abi_encode_sequence());
    assert_eq!(data.as_slice(), expected.as_slice());
}

#[test]
fn bundles_ship_through_one_request_and_collisions_alone() {
    let requests = vec![(multicall3_address(), word(1)), (addr(2), word(2)), (addr(3), word(3))];
    let config = BulkCallConfig { dispatch: CallDispatch::CallMany, ..cfg(100, 10) };
    let by_height = plan_shipping(&requests, BlockId::number(5), &config);
    match by_height {
        Shipping::CallMany { number, groups, conflicting } => {
            assert_eq!(number, BlockNumberOrTag::Number(5));
            assert_eq!(groups.len(), 1);
            assert_eq!(conflicting.len(), 1);
        }
        Shipping::PerCall { .. } => panic!("a height can be shipped in bundles"),
    }
    let by_hash = BlockId::Hash { block_hash: B256::repeat_byte(1), require_canonical: None };
    assert!(matches!(
        plan_shipping(&requests, by_hash, &config),
        Shipping::PerCall { .. }
    ));
    assert_eq!(planned_call_count(&requests, &cfg(100, 10)), 2);
}

#[test]
fn bundle_entries_settle_their_own_plans() {
    let plans = vec![
        CallPlan::Single { target: addr(1), slots: vec![word(1)] },
        CallPlan::Single { target: addr(2), slots: vec![word(2)] },
    ];
    let entries = vec![
        CallManyEntry { value: Some(pack_slots_calldata(&[word(8)])), error: None },
        CallManyEntry { value: None, error: Some("out of gas".to_string()) },
    ];
    let results = decode_call_many(&plans, entries).expect("as many entries as plans");
    assert_eq!(results[0], (addr(1), word(1), Ok(word(8))));
    assert!(results[1].2.is_err());
    assert!(decode_call_many(&plans, Vec::new()).is_err());
}

fn all_ok(requests: Vec<(Address, U256)>, _: BlockId, _: BulkCallConfig) -> Vec<SlotResult> {
    requests.into_iter().map(|(a, s)| (a, s, Ok(word(1)))).collect()
}

fn all_failed(requests: Vec<(Address, U256)>, _: BlockId, _: BulkCallConfig) -> Vec<SlotResult> {
    requests
        .into_iter()
        .map(|(a, s)| (a, s, Err(StorageFetchError::SubcallFailed)))
        .collect()
}

fn point(requests: Vec<(Address, U256)>, _: BlockId) -> Vec<SlotResult> {
    requests.into_iter().map(|(a, s)| (a, s, Ok(word(2)))).collect()
}

#[test]
fn failed_slots_are_repaired_by_point_reads() {
    let requests: Vec<_> = (0..5u64).map(|i| (addr(1), word(i))).collect();
    let mut fetcher = BulkFetcher::new(BulkCallConfig::default());
    assert_eq!(fetcher.route(0, true), Route::Nothing);
    assert_eq!(fetcher.route(1, true), Route::Fallback);
    assert_eq!(fetcher.route(5, true), Route::Bulk);

    let good = fetcher.fetch(requests.clone(), BlockId::latest(), all_ok, Some(point));
    assert!(good.iter().all(|(_, _, r)| *r == Ok(word(1))));

    let repaired = fetcher.fetch(requests.clone(), BlockId::latest(), all_failed, Some(point));
    assert_eq!(repaired.len(), requests.len());
    assert!(repaired.iter().all(|(_, _, r)| *r == Ok(word(2))));

    let bare = fetcher.fetch(
        requests.clone(),
        BlockId::latest(),
        all_failed,
        None::<fn(Vec<(Address, U256)>, BlockId) -> Vec<SlotResult>>,
    );
    assert!(bare.iter().all(|(_, _, r)| r.is_err()));
}

#[test]
fn programs_at_one_target_do_not_share_a_call() {
    let program = |byte: u8| StorageProgram {
        target: addr(byte),
        code: Bytes::from_vec(vec![byte]),
        calldata: Bytes::new(),
    };
    let split = split_programs(&[program(1), program(2), program(1)]);
    assert_eq!(split.bundle, vec![0, 1]);
    assert_eq!(split.individual, vec![2]);

    let response = aggregate_returns(vec![(true, vec![1]), (false, Vec::new())]);
    let bundled = program_bundle_results(2, Ok(Bytes::from_vec(response)));
    let alone = vec![Ok(Bytes::from_vec(vec![3]))];
    let placed = place_program_results(3, &split, bundled, alone);
    assert_eq!(placed[0], Ok(Bytes::from_vec(vec![1])));
    assert!(matches!(placed[1], Err(StorageFetchError::ProgramFailed)));
    assert_eq!(placed[2], Ok(Bytes::from_vec(vec![3])));
}

#[test]
fn account_fields_come_two_words_each() {
    let addresses = vec![addr(1), addr(2)];
    let program = account_fields_program(&addresses);
    assert_eq!(program.calldata.len(), 64);
    let data = pack_slots_calldata(&[word(10), word(11), word(20), word(21)]);
    let samples = decode_account_fields(&addresses, data.as_slice()).expect("four words");
    assert_eq!(samples[1].0, addr(2));
    assert_eq!(samples[1].1.balance, word(20));
    assert_eq!(samples[1].1.code_hash, B256 { hi: 0, lo: 21 });
    assert!(decode_account_fields(&addresses, &data.as_slice()[..96]).is_err());
}

#[test]
fn block_context_comes_in_seven_words() {
    assert_eq!(block_context_program().calldata.len(), 0);
    let words: Vec<U256> = vec![
        word(100),
        word(200),
        word(7),
        addr(0xcc).into_word(),
        word(9),
        U256::max_value(),
        word(1),
    ];
    let data = pack_slots_calldata(&words);
    let sample = decode_block_context(data.as_slice()).expect("seven words");
    assert_eq!(sample.number, 100);
    assert_eq!(sample.timestamp, 200);
    assert_eq!(sample.basefee, word(7));
    assert_eq!(sample.coinbase, addr(0xcc));
    assert_eq!(sample.prevrandao, B256 { hi: 0, lo: 9 });
    assert_eq!(sample.gas_limit, u64::MAX);
    assert_eq!(sample.chain_id, 1);
    assert!(decode_block_context(&data.as_slice()[..223]).is_err());
}

#[test]
fn point_reads_go_out_in_batches() {
    let requests: Vec<_> = (0..5u64).map(|i| (addr(1), word(i))).collect();
    let batches = plan_batches(&requests, StorageBatchConfig::new(2, 1));
    let sizes: Vec<usize> = batches.iter().map(Vec::len).collect();
    assert_eq!(sizes, vec![2, 2, 1]);
    assert_eq!(batches.concat(), requests);
    assert!(plan_batches(&Vec::new(), StorageBatchConfig::new(2, 1)).is_empty());
    let single = plan_batches(&requests, StorageBatchConfig { slots_per_batch: 0, max_concurrent_batches: 0 });
    assert_eq!(single.len(), 5);
}

#[test]
fn point_reads_settle_call_by_call() {
    let batch = vec![(addr(1), word(1)), (addr(1), word(2)), (addr(1), word(3))];
    let replies = vec![
        CallReply::Value(word(9)),
        CallReply::Failed { details: "limit".to_string() },
        CallReply::Unserializable { details: "shape".to_string() },
    ];
    let sent = settle_batch(&batch, &replies, &None);
    assert_eq!(sent[0].2, Ok(word(9)));
    assert_eq!(
        sent[1].2,
        Err(StorageFetchError::Provider {
            method: "eth_getStorageAt".to_string(),
            details: "limit".to_string()
        })
    );
    assert_eq!(
        sent[2].2,
        Err(StorageFetchError::Serialization { details: "shape".to_string() })
    );
    let unsent = settle_batch(&batch, &replies, &Some("down".to_string()));
    assert_eq!(unsent[0].2, Err(StorageFetchError::BatchSend { details: "down".to_string() }));
    assert_eq!(unsent[1].2, Err(StorageFetchError::BatchSend { details: "down".to_string() }));
    assert_eq!(
        unsent[2].2,
        Err(StorageFetchError::Serialization { details: "shape".to_string() })
    );
}

fn provider_down(requests: Vec<(Address, U256)>, _: BlockId, _: BulkCallConfig) -> Vec<SlotResult> {
    let error = || StorageFetchError::Provider {
        method: "eth_call".to_string(),
        details: "no overrides".to_string(),
    };
    requests.into_iter().map(|(a, s)| (a, s, Err(error()))).collect()
}

#[test]
fn a_fetcher_latches_to_its_fallback() {
    let requests: Vec<_> = (0..5u64).map(|i| (addr(1), word(i))).collect();
    let mut fetcher = BulkFetcher::new(BulkCallConfig::default());
    fetcher.fetch(requests.clone(), BlockId::latest(), provider_down, Some(point));
    assert_eq!(fetcher.failures, 1);
    fetcher.fetch(requests.clone(), BlockId::latest(), all_ok, Some(point));
    assert_eq!(fetcher.failures, 0);
    for _ in 0..2 {
        fetcher.fetch(requests.clone(), BlockId::latest(), provider_down, Some(point));
    }
    assert_eq!(fetcher.route(5, true), Route::Fallback);
    let latched = fetcher.fetch(requests.clone(), BlockId::latest(), all_ok, Some(point));
    assert!(latched.iter().all(|(_, _, r)| *r == Ok(word(2))));
    assert_eq!(fetcher.failures, 2);
    assert_eq!(fetcher.route(5, false), Route::Bulk);
}

#[test]
fn attempts_are_settled_or_left_to_be_counted() {
    let requests: Vec<_> = (0..5u64).map(|i| (addr(1), word(i))).collect();
    let mut fetcher = BulkFetcher::new(BulkCallConfig::default());
    let few = fetcher.attempt(requests[..1].to_vec(), BlockId::latest(), all_ok, &Some(point));
    assert_eq!(few, Attempt::Settled(vec![(addr(1), word(0), Ok(word(2)))]));
    let open = fetcher.attempt(requests.clone(), BlockId::latest(), provider_down, &Some(point));
    let results = match open {
        Attempt::Open(results) => results,
        Attempt::Settled(_) => panic!("there is a fallback"),
    };
    let repair = fetcher.absorb(results);
    assert_eq!(fetcher.failures, 1);
    assert_eq!(repair.failed, requests);
    let out = repair.complete(BlockId::latest(), &point);
    assert!(out.iter().all(|(_, _, r)| *r == Ok(word(2))));
    fetcher.failures = usize::MAX;
    fetcher.absorb(provider_down(requests, BlockId::latest(), BulkCallConfig::default()));
    assert_eq!(fetcher.failures, 0);
}

#[test]
fn fetches_without_a_runtime_all_fail() {
    let requests = vec![(addr(1), word(1)), (addr(2), word(2))];
    let failed = fail_bulk_without_runtime(&requests, RuntimeError::CurrentThreadRuntime);
    assert_eq!(failed.len(), 2);
    assert_eq!(
        failed[1],
        (
            addr(2),
            word(2),
            Err(StorageFetchError::Runtime(RuntimeError::CurrentThreadRuntime))
        )
    );
    let proofs = vec![(addr(3), vec![word(1)]), (addr(4), Vec::new())];
    let failed = fail_proofs_without_runtime(&proofs, "none".to_string());
    assert_eq!(failed.len(), 2);
    assert_eq!(failed[0].0, addr(3));
    assert!(matches!(
        &failed[1].1,
        Err(StorageFetchError::Runtime(RuntimeError::MissingRuntime { details }))
            if details == "none"
    ));
}

#[test]
fn point_reads_without_a_runtime_all_fail() {
    let requests = vec![(addr(1), word(1)), (addr(2), word(2))];
    let failed = fail_without_runtime(&requests, "none".to_string());
    assert_eq!(failed.len(), 2);
    assert_eq!(
        failed[1],
        (
            addr(2),
            word(2),
            Err(StorageFetchError::Runtime(RuntimeError::MissingRuntime {
                details: "none".to_string()
            }))
        )
    );
}

#[test]
fn proofs_carry_account_and_slots() {
    assert_eq!(proof_concurrency(0), 1);
    assert_eq!(proof_concurrency(5), 5);
    let reply = ProofReply {
        balance: word(1),
        nonce: 2,
        code_hash: B256::repeat_byte(3),
        storage_hash: B256::repeat_byte(4),
        storage_proof: vec![(B256 { hi: 0, lo: 5 }, word(6))],
    };
    let (address, answer) = settle_proof(addr(9), Ok(reply));
    assert_eq!(address, addr(9));
    let proof: AccountProof = answer.expect("a reply");
    assert_eq!(proof.balance, word(1));
    assert_eq!(proof.nonce, 2);
    assert_eq!(proof.slots, vec![(word(5), word(6))]);
    let (_, failed) = settle_proof(addr(9), Err("no".to_string()));
    assert!(matches!(
        failed,
        Err(StorageFetchError::Provider { method, .. }) if method == "eth_getProof"
    ));
}
