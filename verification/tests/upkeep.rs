use evm_fork_cache::access_list::{AccessListCall, AccessListError};
use evm_fork_cache::access_set::StorageAccessList;
use evm_fork_cache::block::BlockId;
use evm_fork_cache::bulk_storage::programs::AccountFieldsSample;
use evm_fork_cache::bulk_storage::response::SlotResult;
use evm_fork_cache::bytes::Bytes;
use evm_fork_cache::cache::account::{AccountInfo, Bytecode};
use evm_fork_cache::cache::builder::EvmCacheBuilder;
use evm_fork_cache::cache::code_seeds::CodeSeedState;
use evm_fork_cache::cache::config::MissingTargetBehavior;
use evm_fork_cache::cache::evm_cache::{EvmCache, LoadedState};
use evm_fork_cache::cache::freshness::{classify, SlotFetch};
use evm_fork_cache::cache::hydration::{AccountProof, ProofAnswer, ReadSetHydrationFailure};
use evm_fork_cache::cache::metadata::ImmutableDataCache;
use evm_fork_cache::cache::prepared::{
    PreparedAccount, PreparedAccountPatch, PreparedAccountPatchError,
};
use evm_fork_cache::cache::read_set::{
    Discovery, ReadSetWarmupBatch, ReadSetWarmupCall, ReadSetWarmupConfig, ReadSetWarmupError,
    ReadSetWarmupStrategy,
};
use evm_fork_cache::cache::seeding::UnverifiableReason;
use evm_fork_cache::collections::SortedMap;
use evm_fork_cache::errors::{CacheError, CodeRole, StorageFetchError};
use evm_fork_cache::foreign::keccak_empty;
use evm_fork_cache::primitives::{Address, SlotKey, B256, U256};

fn word(n: u64) -> U256 {
    U256::from_u64(n)
}

fn code(bytes: &[u8]) -> Bytecode {
    Bytecode::new_raw(Bytes::from_slice(bytes))
}

fn empty_cache() -> EvmCache {
    EvmCacheBuilder::new().build(
        None,
        None,
        LoadedState {
            accounts: SortedMap::new(),
            storage: SortedMap::new(),
            bytecodes: Vec::new(),
            code_seeds: SortedMap::new(),
            immutable: ImmutableDataCache::default(),
        },
    )
}

fn fetch_sevens(requests: Vec<(Address, U256)>, _: BlockId) -> Vec<SlotResult> {
    requests.into_iter().map(|(a, s)| (a, s, Ok(word(7)))).collect()
}

fn fetch_nothing(requests: Vec<(Address, U256)>, _: BlockId) -> Vec<SlotResult> {
    requests
        .into_iter()
        .map(|(a, s)| (a, s, Err(StorageFetchError::SubcallFailed)))
        .collect()
}

type Fetch = fn(Vec<(Address, U256)>, BlockId) -> Vec<SlotResult>;

#[test]
fn code_hash_is_the_digest_of_the_code() {
    let digest = alloy_primitives::keccak256([0x60, 0x01]);
    assert_eq!(code(&[0x60, 0x01]).hash_slow(), B256::from_slice(digest.as_slice(), 0));
    assert_eq!(Bytecode::new().hash_slow(), keccak_empty());
    assert_eq!(
        keccak_empty(),
        B256::from_slice(alloy_primitives::keccak256([]).as_slice(), 0)
    );
    assert!(Bytecode::new_raw_checked(Bytes::from_slice(&[0xef, 0x01])).is_none());
    assert!(Bytecode::new_raw_checked(Bytes::from_slice(&[0xef, 0x00])).is_some());
}

#[test]
fn warmed_slots_are_cached_and_failures_told() {
    let a = Address::repeat_byte(1);
    let mut cache = empty_cache();
    let report = cache.prewarm_slots(vec![(a, word(1))], &Some(fetch_sevens));
    assert_eq!(report.loaded, 1);
    assert_eq!(cache.cached_storage_value(a, word(1)), Some(word(7)));
    let report = cache.prewarm_slots(vec![(a, word(2))], &Some(fetch_nothing));
    assert_eq!(report.loaded, 0);
    assert_eq!(report.failed.len(), 1);
    assert_eq!(cache.cached_storage_value(a, word(2)), None);
    assert_eq!(classify(&Ok(word(0))), SlotFetch::Zero);
    assert_eq!(classify(&Ok(word(4))), SlotFetch::Value(word(4)));
    assert_eq!(
        classify(&Err(StorageFetchError::SubcallFailed)),
        SlotFetch::FetchFailed { reason: StorageFetchError::SubcallFailed }
    );
}

#[test]
fn verified_slots_take_the_fetched_value() {
    let a = Address::repeat_byte(1);
    let mut cache = empty_cache();
    cache.inject_storage_batch(&[(a, word(1), word(3))]);
    let changes = cache.verify_slots(vec![(a, word(1))], Some(fetch_sevens)).expect("fetched");
    assert_eq!(changes.len(), 1);
    assert_eq!((changes[0].old, changes[0].new), (word(3), word(7)));
    assert_eq!(cache.cached_storage_value(a, word(1)), Some(word(7)));
    let again = cache.verify_slots(vec![(a, word(1))], Some(fetch_sevens)).expect("fetched");
    assert!(again.is_empty());
    assert_eq!(
        cache.verify_slots(vec![(a, word(1))], None::<Fetch>),
        Err(CacheError::MissingStorageBatchFetcher)
    );
    assert_eq!(
        cache.reconcile_slots(vec![(a, word(1))], Some(fetch_nothing)),
        Err(CacheError::ReconcileFetchFailed { requested: 1 })
    );
}

#[test]
fn claimed_code_is_pending_until_verified() {
    let a = Address::repeat_byte(1);
    let mut cache = empty_cache();
    assert_eq!(
        cache.seed_account_code(a, Bytecode::new()),
        Err(CacheError::CodeSeedEmpty { address: a })
    );
    let hash = cache.seed_account_code(a, code(&[0x60])).expect("not empty");
    assert_eq!(cache.code_seed_state(&a), Some(CodeSeedState::Pending { code_hash: hash }));
    assert_eq!(cache.pending_code_seeds(), vec![a]);

    type Fields = fn(
        Vec<Address>,
        BlockId,
    ) -> Result<Vec<(Address, AccountFieldsSample)>, StorageFetchError>;
    assert_eq!(
        cache.verify_code_seeds(None::<Fields>).map(|_| ()),
        Err(CacheError::MissingAccountFieldsFetcher)
    );
    cache.repin_to_block(5);
    let confirm = |addresses: Vec<Address>, _: BlockId| {
        Ok(addresses
            .into_iter()
            .map(|a| {
                (a, AccountFieldsSample { balance: word(9), code_hash: code(&[0x60]).hash_slow() })
            })
            .collect::<Vec<_>>())
    };
    let report = cache.verify_code_seeds(Some(confirm)).expect("fetched");
    assert_eq!(report.verified, vec![a]);
    assert_eq!(
        cache.code_seed_state(&a),
        Some(CodeSeedState::Verified { code_hash: hash, verified_at_block: 5 })
    );
    assert_eq!(cache.layers.local_account_info(a).map(|info| info.balance), Some(word(9)));
}

#[test]
fn claims_that_do_not_hold_are_purged() {
    let wrong = Address::repeat_byte(1);
    let missing = Address::repeat_byte(2);
    let bare = Address::repeat_byte(3);
    let silent = Address::repeat_byte(4);
    let mut cache = empty_cache();
    for address in [wrong, missing, bare, silent] {
        cache.seed_account_code(address, code(&[0x60])).expect("not empty");
    }
    let answer = move |_: Vec<Address>, _: BlockId| {
        let sample = |code_hash: B256| AccountFieldsSample { balance: word(0), code_hash };
        Ok(vec![
            (wrong, sample(B256::repeat_byte(7))),
            (missing, sample(B256::zero())),
            (bare, sample(keccak_empty())),
        ])
    };
    let report = cache.verify_code_seeds(Some(answer)).expect("fetched");
    assert_eq!(report.mismatched.len(), 1);
    assert_eq!(report.mismatched[0].actual, B256::repeat_byte(7));
    assert_eq!(report.not_deployed, vec![missing]);
    assert_eq!(report.codeless, vec![bare]);
    assert_eq!(report.unverifiable, vec![(silent, UnverifiableReason::NoSample)]);
    for address in [wrong, missing, bare] {
        assert_eq!(cache.code_seed_state(&address), None);
        assert!(cache.layers.local_account_info(address).is_none());
    }
    assert_eq!(cache.pending_code_seeds(), vec![silent]);
}

#[test]
fn claims_that_conflict_with_fetched_code_are_refused() {
    let a = Address::repeat_byte(1);
    let mut cache = empty_cache();
    let fetched = code(&[0x61]);
    let cached = fetched.hash_slow();
    cache.absorb_fetched_account(
        a,
        AccountInfo { balance: word(1), nonce: 1, code_hash: cached, code: Some(fetched) },
    );
    let seeded = code(&[0x60]).hash_slow();
    assert_eq!(
        cache.seed_account_code(a, code(&[0x60])),
        Err(CacheError::CodeSeedConflict { address: a, cached, seeded })
    );
    assert_eq!(cache.seed_account_code(a, code(&[0x61])), Ok(cached));
    assert_eq!(
        cache.code_seed_state(&a),
        Some(CodeSeedState::Verified { code_hash: cached, verified_at_block: 0 })
    );
}

#[test]
fn etched_code_is_meant_to_differ() {
    let a = Address::repeat_byte(1);
    let b = Address::repeat_byte(2);
    let mut cache = empty_cache();
    let hash = cache.etch_account_code(a, code(&[0x60])).expect("not empty");
    assert_eq!(cache.etched_accounts(), vec![a]);
    assert_eq!(cache.code_seed_state(&a), Some(CodeSeedState::Etched { code_hash: hash }));
    let other = cache.seed_account_code_with(b, code(&[0x62]), 3, word(4)).expect("not empty");
    let info = cache.layers.local_account_info(b).expect("seeded");
    assert_eq!((info.nonce, info.balance, info.code_hash), (3, word(4), other));
    cache.etch_account_code(b, code(&[0x63])).expect("not empty");
    assert_eq!(cache.etched_accounts(), vec![a, b]);
}

#[test]
fn code_is_copied_between_accounts() {
    let source = Address::repeat_byte(1);
    let target = Address::repeat_byte(2);
    let mut cache = empty_cache();
    assert_eq!(
        cache.override_or_create_account_code(source, target),
        Err(CacheError::MissingSourceBytecode { source })
    );
    cache.etch_account_code(source, code(&[0x60])).expect("not empty");
    assert!(cache.needs_target_fetch(target, MissingTargetBehavior::Error));
    assert_eq!(
        cache.override_account_code(source, target, Ok(None)),
        Err(CacheError::MissingTargetAccount { target })
    );
    assert!(matches!(
        cache.override_account_code(source, target, Err("down".to_string())),
        Err(CacheError::TargetAccountFetch { .. })
    ));
    assert_eq!(cache.override_or_create_account_code(source, target), Ok(()));
    let copied = cache.layers.local_account_info(target).expect("created");
    assert_eq!(copied.code_hash, code(&[0x60]).hash_slow());
    assert_eq!(cache.require_contract_target(target, Ok(None)), Ok(()));
    let bare = Address::repeat_byte(3);
    assert_eq!(
        cache.require_contract_target(bare, Ok(Some(AccountInfo::default()))),
        Err(CacheError::MissingRuntimeCode { role: CodeRole::Target, address: bare })
    );
}

fn prepared(address: Address, bytes: &[u8]) -> PreparedAccount {
    PreparedAccount {
        address,
        balance: word(5),
        nonce: 6,
        code_hash: code(bytes).hash_slow(),
        proof_slots: 0,
        code: code(bytes),
    }
}

#[test]
fn prepared_accounts_are_checked_before_any_is_written() {
    let a = Address::repeat_byte(1);
    let b = Address::repeat_byte(2);
    let block_hash = B256::repeat_byte(9);
    let mut cache = empty_cache();
    let patch = |values: Vec<PreparedAccount>| PreparedAccountPatch {
        block_hash,
        verified_at_block: 4,
        values,
    };
    assert!(matches!(
        cache.apply_prepared_account_patch(&patch(vec![prepared(a, &[0x60])])),
        Err(PreparedAccountPatchError::BaselineMismatch { cache: None, .. })
    ));
    cache.set_block(BlockId::Hash { block_hash, require_canonical: None });
    let refused = |cache: &mut EvmCache, value: PreparedAccount| {
        let error = cache.apply_prepared_account_patch(&patch(vec![prepared(a, &[0x60]), value]));
        assert!(cache.layers.local_account_info(a).is_none());
        error.unwrap_err()
    };
    assert!(matches!(
        refused(&mut cache, prepared(a, &[0x60])),
        PreparedAccountPatchError::DuplicateAccount { .. }
    ));
    assert!(matches!(
        refused(&mut cache, PreparedAccount { code: Bytecode::new(), ..prepared(b, &[0x60]) }),
        PreparedAccountPatchError::EmptyCode { .. }
    ));
    assert!(matches!(
        refused(&mut cache, PreparedAccount { proof_slots: 1, ..prepared(b, &[0x60]) }),
        PreparedAccountPatchError::UnexpectedProofSlots { slots: 1, .. }
    ));
    assert!(matches!(
        refused(&mut cache, PreparedAccount { code: code(&[0x61]), ..prepared(b, &[0x60]) }),
        PreparedAccountPatchError::CodeHashMismatch { .. }
    ));
    let applied =
        cache.apply_prepared_account_patch(&patch(vec![prepared(a, &[0x60]), prepared(b, &[0x61])]));
    assert_eq!(applied, Ok(2));
    let info = cache.layers.local_account_info(a).expect("written");
    assert_eq!((info.balance, info.nonce), (word(5), 6));
    cache.etch_account_code(b, code(&[0x62])).expect("not empty");
    assert!(matches!(
        cache.validate_prepared_account_patch(&patch(vec![prepared(b, &[0x61])])),
        Err(PreparedAccountPatchError::EtchedAccount { .. })
    ));
}

fn call(expected_slots: Option<usize>) -> ReadSetWarmupCall {
    ReadSetWarmupCall {
        tx: AccessListCall::new(Address::zero(), Address::repeat_byte(1), Bytes::new()),
        expected_slots,
        restrict_to: None,
    }
}

fn discover_one(calls: &Vec<ReadSetWarmupCall>, _: BlockId) -> Vec<Discovery> {
    calls
        .iter()
        .map(|_| {
            let mut access = StorageAccessList::default();
            access.accounts.insert(Address::repeat_byte(4));
            access.slots.insert(SlotKey { address: Address::repeat_byte(4), slot: word(2) });
            Ok(access)
        })
        .collect()
}

fn discover_none(_: &Vec<ReadSetWarmupCall>, _: BlockId) -> Vec<Discovery> {
    Vec::new()
}

fn discover_errors(calls: &Vec<ReadSetWarmupCall>, _: BlockId) -> Vec<Discovery> {
    calls
        .iter()
        .map(|_| {
            Err(AccessListError::Query {
                operation: "eth_createAccessList execution".to_string(),
                details: "reverted".to_string(),
            })
        })
        .collect()
}

type Discover = fn(&Vec<ReadSetWarmupCall>, BlockId) -> Vec<Discovery>;

#[test]
fn discovered_slots_are_warmed() {
    let always = ReadSetWarmupConfig {
        strategy: ReadSetWarmupStrategy::AccessList,
        ..ReadSetWarmupConfig::default()
    };
    let batch = || ReadSetWarmupBatch {
        known_slots: vec![(Address::repeat_byte(3), word(1))],
        calls: vec![call(None)],
    };
    let mut cache = empty_cache();
    let report = cache
        .prewarm_read_sets(batch(), always, &Some(discover_one as Discover), &Some(fetch_sevens))
        .unwrap_or_else(|_| panic!("discovery is available"));
    assert!(report.used_access_lists);
    assert_eq!(report.access_list_successes, 1);
    assert_eq!(report.known.loaded, 1);
    assert_eq!(report.discovered.loaded, 1);
    assert_eq!(cache.cached_storage_value(Address::repeat_byte(4), word(2)), Some(word(7)));

    let unavailable =
        cache.prewarm_read_sets(batch(), always, &None::<Discover>, &Some(fetch_sevens));
    assert!(matches!(
        unavailable,
        Err(ReadSetWarmupError::AccessListFetcherUnavailable { calls: 1 })
    ));
    let short = cache.prewarm_read_sets(
        batch(),
        always,
        &Some(discover_none as Discover),
        &Some(fetch_sevens),
    );
    assert!(matches!(
        short,
        Err(ReadSetWarmupError::AccessListResultCountMismatch { expected: 1, actual: 0 })
    ));
    let failed = cache
        .prewarm_read_sets(batch(), always, &Some(discover_errors as Discover), &Some(fetch_sevens))
        .unwrap_or_else(|_| panic!("each call settles for itself"));
    assert_eq!(failed.access_list_failures.len(), 1);
}

#[test]
fn small_batches_are_not_worth_discovery() {
    let config = ReadSetWarmupConfig::default();
    assert!(!config.should_use_access_lists(&vec![call(None)]));
    assert!(!config.should_use_access_lists(&vec![call(Some(31))]));
    assert!(config.should_use_access_lists(&vec![call(Some(32))]));
    let many: Vec<ReadSetWarmupCall> = (0..8).map(|_| call(None)).collect();
    assert!(config.should_use_access_lists(&many));
    let local = ReadSetWarmupConfig { strategy: ReadSetWarmupStrategy::LocalOnly, ..config };
    assert!(!local.should_use_access_lists(&many));
}

fn prove(asked: Vec<(Address, Vec<U256>)>, _: BlockId) -> Vec<ProofAnswer> {
    asked
        .into_iter()
        .map(|(address, slots)| {
            let proof = AccountProof {
                balance: word(3),
                nonce: 1,
                code_hash: keccak_empty(),
                storage_hash: B256::zero(),
                slots: slots.into_iter().map(|slot| (slot, word(8))).collect(),
            };
            (address, Ok(proof))
        })
        .collect()
}

fn prove_nothing(_: Vec<(Address, Vec<U256>)>, _: BlockId) -> Vec<ProofAnswer> {
    Vec::new()
}

type Prove = fn(Vec<(Address, Vec<U256>)>, BlockId) -> Vec<ProofAnswer>;

#[test]
fn proved_reads_are_refreshed() {
    let a = Address::repeat_byte(1);
    let mut required = StorageAccessList::default();
    required.accounts.insert(a);
    required.slots.insert(SlotKey { address: a, slot: word(2) });
    let mut cache = empty_cache();
    cache.set_block(BlockId::Hash { block_hash: B256::repeat_byte(1), require_canonical: None });
    assert!(!cache.missing_read_set(&required).is_empty());
    let report = cache.hydrate_read_set(&required, &Some(prove as Prove));
    assert!(report.is_complete());
    assert_eq!(report.accounts_refreshed, 1);
    assert_eq!(report.slots_refreshed, 1);
    assert_eq!(cache.cached_storage_value(a, word(2)), Some(word(8)));
    assert!(cache.missing_read_set(&required).is_empty());

    let mut cold = empty_cache();
    let silent = cold.hydrate_read_set(&required, &Some(prove_nothing as Prove));
    assert!(!silent.is_complete());
    assert!(silent
        .failures
        .iter()
        .any(|f| matches!(f, ReadSetHydrationFailure::ProofResultMissing { .. })));
    let unavailable = cold.hydrate_read_set(&required, &None::<Prove>);
    assert!(unavailable
        .failures
        .iter()
        .any(|f| matches!(f, ReadSetHydrationFailure::ProofFetcherUnavailable { .. })));
}
