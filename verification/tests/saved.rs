use evm_fork_cache::block::BlockId;
use evm_fork_cache::bytes::Bytes;
use evm_fork_cache::cache::account::{AccountInfo, Bytecode};
use evm_fork_cache::cache::builder::EvmCacheBuilder;
use evm_fork_cache::cache::code_seeds::{
    CodeSeedState, CODE_SEED_CACHE_MAGIC, CODE_SEED_CACHE_VERSION,
};
use evm_fork_cache::cache::context::{BlockEnvSource, BlockHeader};
use evm_fork_cache::cache::durable_checkpoint::{
    DurableCheckpointBlock, DurableCheckpointError, DurableCheckpointIdentity,
    DurableCheckpointMetadata, DurableCheckpointStore, WriteCoordinator,
};
use evm_fork_cache::cache::evm_cache::{EvmCache, LoadedState};
use evm_fork_cache::cache::metadata::{ImmutableDataCache, IMMUTABLE_CACHE_MAGIC};
use evm_fork_cache::cache::saved_state::{
    load_binary_state, save_binary_state, BinaryEvmState, BytecodeCache, BytecodeCacheEntry,
    BINARY_STATE_MAGIC, BINARY_STATE_VERSION, BYTECODE_CACHE_MAGIC, BYTECODE_CACHE_VERSION,
};
use evm_fork_cache::cache::slot_observations::SLOT_OBSERVATIONS_MAGIC;
use evm_fork_cache::cache::checkpoint_files::{
    fold_suffix, folded_path_text, PathPart, TempEvent, TempSearch, TempStep, WriteOrders,
};
use evm_fork_cache::cache::state_snapshot::{
    EvmCacheStateSnapshot, LoadedDurableCheckpoint, PersistedBlockId,
};
use evm_fork_cache::cache::versioned::{decode, encode, load};
use evm_fork_cache::collections::SortedMap;
use evm_fork_cache::primitives::{Address, B256, U256};

fn word(n: u64) -> U256 {
    U256::from_u64(n)
}

fn nothing() -> LoadedState {
    LoadedState {
        accounts: SortedMap::new(),
        storage: SortedMap::new(),
        bytecodes: Vec::new(),
        code_seeds: SortedMap::new(),
        immutable: ImmutableDataCache::default(),
    }
}

fn header() -> BlockHeader {
    BlockHeader {
        number: 7,
        base_fee_per_gas: Some(3),
        beneficiary: Address::repeat_byte(0xC0),
        mix_hash: Some(B256::repeat_byte(0x77)),
        gas_limit: 30_000_000,
        timestamp: 1_000,
    }
}

#[test]
fn merge_from_db_caches_only_coded_accounts() {
    let coded = Address::repeat_byte(0x01);
    let eoa = Address::repeat_byte(0x02);

    let code = Bytecode::new_raw(Bytes::from_slice(&[0x60, 0x01, 0x60, 0x02, 0x01]));
    let expected = code.original_bytes();
    let code_hash = code.hash_slow();
    let mut accounts = SortedMap::new();
    accounts.insert(
        coded,
        AccountInfo { balance: U256::zero(), nonce: 1, code: Some(code), code_hash },
    );
    // An account with no loaded code must be skipped.
    accounts.insert(eoa, AccountInfo::default());

    let mut cache = BytecodeCache::default();
    cache.merge_from_accounts(&accounts);

    assert_eq!(cache.contracts.len(), 1, "only the coded account is cached");
    assert_eq!(
        cache.contracts.get(&coded).map(|e| e.bytecode.clone()),
        Some(expected)
    );
    assert!(!cache.contracts.contains_key(&eoa));
    let loadable = cache.loadable();
    assert_eq!(loadable.len(), 1);
    assert_eq!(loadable[0].0, coded);
}

#[test]
fn saved_state_comes_back_without_code() {
    let a = Address::repeat_byte(1);
    let b = Address::repeat_byte(2);
    let code = Bytecode::new_raw(Bytes::from_slice(&[0x60]));
    let mut accounts = SortedMap::new();
    accounts.insert(
        a,
        AccountInfo { balance: word(1000), nonce: 5, code_hash: code.hash_slow(), code: Some(code) },
    );
    accounts.insert(
        b,
        AccountInfo { balance: word(2000), nonce: 10, code_hash: B256::repeat_byte(0xBB), code: None },
    );
    let mut storage = SortedMap::new();
    let mut slots = SortedMap::new();
    slots.insert(word(0), word(42));
    slots.insert(word(1), word(99));
    storage.insert(a, slots);

    let state = BinaryEvmState::capture(&accounts, &storage);
    let mut loaded_accounts = SortedMap::new();
    let mut loaded_storage = SortedMap::new();
    state.populate(&mut loaded_accounts, &mut loaded_storage);

    assert_eq!(loaded_accounts.len(), 2);
    let info: &AccountInfo = loaded_accounts.get(&a).unwrap();
    assert_eq!(info.balance, word(1000));
    assert_eq!(info.nonce, 5);
    assert!(info.code.is_none());
    assert_eq!(loaded_accounts.get(&b).unwrap().code_hash, B256::repeat_byte(0xBB));
    assert_eq!(*loaded_storage.get(&a).unwrap().get(&word(1)).unwrap(), word(99));
    assert_eq!(loaded_storage.len(), 1);
}

#[test]
fn files_carry_kind_and_version() {
    assert_eq!(&BINARY_STATE_MAGIC, b"EFCSTAT\0");
    assert_eq!(&BYTECODE_CACHE_MAGIC, b"EFCBYTE\0");
    assert_eq!(&CODE_SEED_CACHE_MAGIC, b"EFCSEED\0");
    assert_eq!(&IMMUTABLE_CACHE_MAGIC, b"EFCMETA\0");
    assert_eq!(&SLOT_OBSERVATIONS_MAGIC, b"EFC-SOBS");

    let data = encode(&BINARY_STATE_MAGIC, BINARY_STATE_VERSION, &[1, 2, 3]);
    assert!(data.starts_with(b"EFCSTAT\0"));
    assert_eq!(&data[8..12], &1u32.to_le_bytes());
    assert_eq!(decode(&data, &BINARY_STATE_MAGIC, BINARY_STATE_VERSION), Some(vec![1, 2, 3]));
    assert_eq!(decode(&data, &BYTECODE_CACHE_MAGIC, BYTECODE_CACHE_VERSION), None);
    assert_eq!(decode(&data, &BINARY_STATE_MAGIC, BINARY_STATE_VERSION + 1), None);
    assert_eq!(decode(&data[..11], &BINARY_STATE_MAGIC, BINARY_STATE_VERSION), None);
    assert_eq!(decode(b"not framed", &BINARY_STATE_MAGIC, BINARY_STATE_VERSION), None);
}

#[test]
fn sealed_checkpoints_open_and_corrupt_ones_do_not() {
    let store = DurableCheckpointStore::new("ckpt".to_string());
    let sealed = DurableCheckpointStore::seal(&[5, 6, 7]);
    assert_eq!(store.open(&sealed), Ok(vec![5, 6, 7]));
    let mut flipped = sealed.clone();
    flipped[13] ^= 1;
    assert!(matches!(
        store.open(&flipped),
        Err(DurableCheckpointError::ChecksumMismatch { path }) if path == "ckpt"
    ));
    assert!(matches!(
        store.open(&[0; 31]),
        Err(DurableCheckpointError::InvalidFormat { .. })
    ));
    assert_eq!(store.encoded_size(3), Ok(sealed.len() as u64));
    let small = DurableCheckpointStore::new("ckpt".to_string()).with_max_checkpoint_bytes(10);
    assert!(matches!(
        small.encoded_size(3),
        Err(DurableCheckpointError::CheckpointTooLarge { bytes: 47, max_bytes: 10, .. })
    ));
    assert!(matches!(
        small.open(&sealed),
        Err(DurableCheckpointError::CheckpointTooLarge { .. })
    ));
    assert!(matches!(
        small.encoded_size(u64::MAX),
        Err(DurableCheckpointError::CheckpointSizeOverflow { .. })
    ));
    assert_eq!(small.read_limit(), 11);
    assert!(store.same_file(&small));
    assert_eq!(store.path(), "ckpt");
    assert!(small.admit_size(10).is_ok());
    assert!(small.admit_size(11).is_err());
}

#[test]
fn a_later_write_wins() {
    let mut coordinator = WriteCoordinator::new();
    let first = coordinator.reserve_generation().unwrap();
    let second = coordinator.reserve_generation().unwrap();
    assert!(second > first);
    assert_eq!(coordinator.ensure_newest(second), Ok(()));
    assert_eq!(
        coordinator.ensure_newest(first),
        Err(DurableCheckpointError::WriteSuperseded { generation: first, latest: second })
    );
}

fn metadata(chain_id: u64) -> DurableCheckpointMetadata {
    DurableCheckpointMetadata::new(
        DurableCheckpointIdentity::new(chain_id, "sub".to_string(), "set".to_string()),
        DurableCheckpointBlock::new(9, B256::repeat_byte(9)).with_timestamp(2_000),
    )
}

fn cache_with_state() -> EvmCache {
    let mut cache = EvmCacheBuilder::new().chain_id(5).build(Some(&header()), None, nothing());
    let addr = Address::repeat_byte(1);
    cache.inject_storage_batch(&[(addr, word(1), word(10))]);
    cache.insert_storage_slot(addr, word(2), word(20), Some(AccountInfo::default()));
    cache.token_decimals.insert(addr, 6);
    cache.code_seeds.insert(addr, CodeSeedState::Pending { code_hash: B256::repeat_byte(3) });
    cache
}

#[test]
fn restored_state_is_the_captured_state() {
    let addr = Address::repeat_byte(1);
    let mut cache = cache_with_state();
    let kept = EvmCacheStateSnapshot::capture(&cache);
    let generation = cache.snapshot_generation();
    cache.purge_account(addr);
    cache.set_block(BlockId::number(100));
    kept.restore(&mut cache);
    assert_eq!(cache.cached_storage_value(addr, word(1)), Some(word(10)));
    assert_eq!(cache.cached_storage_value(addr, word(2)), Some(word(20)));
    assert_eq!(cache.known_decimals(addr), Some(6));
    assert_eq!(cache.block_number(), Some(7));
    assert_eq!(cache.snapshot_generation(), generation);
    assert_eq!(cache.snapshot().storage_value(addr, word(1)), Some(word(10)));
}

#[test]
fn a_checkpoint_drops_what_is_not_of_its_block() {
    let cache = cache_with_state();
    let checkpoint = LoadedDurableCheckpoint::capture(&cache, metadata(5)).unwrap();
    let context = checkpoint.state.context;
    assert_eq!(context.block_number, Some(9));
    assert_eq!(context.timestamp, Some(2_000));
    assert_eq!(context.basefee, None);
    assert_eq!(context.coinbase, None);
    assert_eq!(context.prevrandao, None);
    assert_eq!(context.block_gas_limit, None);
    assert_eq!(
        context.block,
        BlockId::Hash { block_hash: B256::repeat_byte(9), require_canonical: Some(true) }
    );
}

#[test]
fn a_checkpoint_keeps_what_is_known_to_be_of_its_block() {
    let mut cache = cache_with_state();
    cache.context.source =
        Some(BlockEnvSource::VerifiedHash { number: 9, hash: B256::repeat_byte(9) });
    cache.context.timestamp = Some(2_000);
    let checkpoint = LoadedDurableCheckpoint::capture(&cache, metadata(5)).unwrap();
    assert_eq!(checkpoint.state.context.basefee, Some(3));
    cache.context.timestamp = Some(1);
    let other = LoadedDurableCheckpoint::capture(&cache, metadata(5)).unwrap();
    assert_eq!(other.state.context.basefee, None);
}

#[test]
fn a_checkpoint_restores_only_for_its_owner_and_chain() {
    let cache = cache_with_state();
    assert!(matches!(
        LoadedDurableCheckpoint::capture(&cache, metadata(6)),
        Err(DurableCheckpointError::CacheChainMismatch {
            cache_chain_id: 5,
            checkpoint_chain_id: 6
        })
    ));
    let expected = DurableCheckpointIdentity::new(5, "sub".to_string(), "set".to_string());
    let other = DurableCheckpointIdentity::new(5, "sub".to_string(), "another".to_string());
    let addr = Address::repeat_byte(1);

    let mut target = EvmCacheBuilder::new().chain_id(5).build(None, None, nothing());
    let checkpoint = LoadedDurableCheckpoint::capture(&cache, metadata(5)).unwrap();
    assert!(matches!(
        checkpoint.restore_into(&mut target, &other),
        Err(DurableCheckpointError::IdentityMismatch { .. })
    ));
    assert_eq!(target.cached_storage_value(addr, word(1)), None);

    let checkpoint = LoadedDurableCheckpoint::capture(&cache, metadata(5)).unwrap();
    assert_eq!(checkpoint.metadata().block.number, 9);
    let restored = checkpoint.restore_into(&mut target, &expected).expect("same owner and chain");
    assert_eq!(restored.block.number, 9);
    assert_eq!(target.cached_storage_value(addr, word(1)), Some(word(10)));
    assert_eq!(
        target.block(),
        BlockId::Hash { block_hash: B256::repeat_byte(9), require_canonical: Some(true) }
    );

    let mut foreign = EvmCacheBuilder::new().chain_id(1).build(None, None, nothing());
    let checkpoint = LoadedDurableCheckpoint::capture(&cache, metadata(5)).unwrap();
    assert!(matches!(
        checkpoint.restore_into(&mut foreign, &expected),
        Err(DurableCheckpointError::CacheChainMismatch { .. })
    ));
}

#[test]
fn saved_blocks_come_back() {
    let hash = BlockId::Hash { block_hash: B256::repeat_byte(1), require_canonical: Some(false) };
    for block in [BlockId::latest(), BlockId::number(3), hash] {
        assert_eq!(PersistedBlockId::of(block).block(), block);
    }
}

#[test]
fn parts_below_a_resolved_path_are_folded_in() {
    let resolved = vec!["a".to_string(), "b".to_string()];
    let suffix = vec![
        PathPart::Up,
        PathPart::Here,
        PathPart::Down("c".to_string()),
        PathPart::Up,
        PathPart::Up,
        PathPart::Up,
        PathPart::Down("d".to_string()),
    ];
    assert_eq!(fold_suffix(resolved, suffix), vec!["d".to_string()]);
}

fn down(name: &str) -> PathPart {
    PathPart::Down(name.to_string())
}

#[test]
fn spellings_of_one_path_share_a_file() {
    let resolved = || vec!["a".to_string(), "b".to_string()];
    let path = |suffix: Vec<PathPart>| folded_path_text("/", "/", resolved(), suffix);
    let plain = path(vec![down("c"), down("d")]);
    assert_eq!(plain, "/a/b/c/d");
    assert_eq!(path(vec![down("c"), PathPart::Here, down("d")]), plain);
    assert_eq!(path(vec![down("c"), down("x"), PathPart::Up, down("d")]), plain);
    assert_eq!(folded_path_text("/", "/", Vec::new(), vec![PathPart::Up]), "/");
    let created = vec!["a".to_string(), "b".to_string(), "c".to_string()];
    assert_eq!(folded_path_text("/", "/", created, vec![down("d")]), plain);
    let again = vec![down("a"), down("b"), down("c"), down("d")];
    assert_eq!(folded_path_text("/", "/", Vec::new(), again), plain);
}

#[test]
fn stores_of_one_file_share_their_order() {
    let store = |path: &str| DurableCheckpointStore::new(path.to_string());
    let first = store("/a/ckpt");
    let second = store("/a/ckpt").with_max_checkpoint_bytes(10);
    let other = store("/b/ckpt");
    assert_eq!(first.max_checkpoint_bytes(), 536_870_912);
    assert!(first.same_file(&second));
    assert!(!first.same_file(&other));

    let mut orders = WriteOrders::new();
    assert_eq!(orders.reserve_generation(&first), Ok(1));
    assert_eq!(orders.reserve_generation(&second), Ok(2));
    assert_eq!(orders.reserve_generation(&other), Ok(1));
    assert_eq!(
        orders.ensure_newest(&first, 1),
        Err(DurableCheckpointError::WriteSuperseded { generation: 1, latest: 2 })
    );
    assert_eq!(orders.ensure_newest(&first, 2), Ok(()));
    assert_eq!(orders.ensure_newest(&other, 1), Ok(()));
    orders.forget(&"/a/ckpt".to_string());
    assert_eq!(orders.reserve_generation(&second), Ok(1));
    assert_eq!(orders.reserve_generation(&other), Ok(2));
}

#[test]
fn temporary_names_are_tried_until_there_were_too_many() {
    let mut search = TempSearch::new();
    for _ in 0..127 {
        assert_eq!(search.record("ckpt", TempEvent::Exists), TempStep::Retry);
    }
    assert_eq!(
        search.record("ckpt", TempEvent::Exists),
        TempStep::Fail(DurableCheckpointError::TemporaryPathExhausted {
            path: "ckpt".to_string(),
            attempts: 128,
        })
    );
    assert_eq!(TempSearch::new().record("ckpt", TempEvent::Created), TempStep::Use);
    let failed =
        TempEvent::Failed { path: ".ckpt.tmp".to_string(), source: "read-only".to_string() };
    assert_eq!(
        TempSearch::new().record("ckpt", failed),
        TempStep::Fail(DurableCheckpointError::Write {
            path: ".ckpt.tmp".to_string(),
            source: "read-only".to_string(),
        })
    );
}


#[test]
fn marks_without_their_code_are_dropped_on_loading() {
    let kept = Address::repeat_byte(1);
    let lost = Address::repeat_byte(2);
    let code = Bytecode::new_raw(Bytes::from_slice(&[0x60, 0x01]));
    let hash = code.hash_slow();
    let mut loaded = nothing();
    loaded.bytecodes.push((kept, code));
    loaded.code_seeds.insert(kept, CodeSeedState::Etched { code_hash: hash });
    loaded.code_seeds.insert(lost, CodeSeedState::Pending { code_hash: hash });
    let cache = EvmCacheBuilder::new().build(None, None, loaded);
    assert_eq!(cache.code_seed_state(&kept), Some(CodeSeedState::Etched { code_hash: hash }));
    assert_eq!(cache.code_seed_state(&lost), None);
}

fn account(balance: u64, nonce: u64, hash: u8) -> AccountInfo {
    AccountInfo {
        balance: word(balance),
        nonce,
        code_hash: B256::repeat_byte(hash),
        code: None,
    }
}

fn slots(pairs: &[(u64, u64)]) -> SortedMap<U256, U256> {
    let mut slots = SortedMap::new();
    for (slot, value) in pairs {
        slots.insert(word(*slot), word(*value));
    }
    slots
}

#[test]
fn binary_state_test_save_load_round_trip() {
    let addr1 = Address::repeat_byte(0x01);
    let addr2 = Address::repeat_byte(0x02);
    let mut accounts = SortedMap::new();
    accounts.insert(addr1, account(1000, 5, 0xAA));
    accounts.insert(addr2, account(2000, 10, 0xBB));
    let mut storage = SortedMap::new();
    storage.insert(addr1, slots(&[(0, 42), (1, 99)]));
    storage.insert(addr2, slots(&[(4, 777)]));

    let bytes = save_binary_state(&accounts, &storage).expect("save binary state");
    assert!(bytes.starts_with(b"EFCSTAT\0"), "binary state cache must carry a magic header");
    assert_eq!(
        &bytes[8..12],
        &1u32.to_le_bytes(),
        "binary state cache must carry an explicit version"
    );

    let mut accounts = SortedMap::new();
    let mut storage = SortedMap::new();
    assert!(load_binary_state(Some(&bytes), &mut accounts, &mut storage));
    assert_eq!(accounts.len(), 2);
    let info1: &AccountInfo = accounts.get(&addr1).unwrap();
    assert_eq!(info1.balance, word(1000));
    assert_eq!(info1.nonce, 5);
    assert_eq!(info1.code_hash, B256::repeat_byte(0xAA));
    assert!(info1.code.is_none());
    assert_eq!(storage.len(), 2);
    assert_eq!(*storage.get(&addr1).unwrap().get(&word(0)).unwrap(), word(42));
    assert_eq!(*storage.get(&addr2).unwrap().get(&word(4)).unwrap(), word(777));
}

fn refused(data: Option<&[u8]>) -> bool {
    let mut accounts = SortedMap::new();
    let mut storage = SortedMap::new();
    accounts.insert(Address::repeat_byte(9), account(1, 1, 1));
    let loaded = load_binary_state(data, &mut accounts, &mut storage);
    assert_eq!((accounts.len(), storage.len()), (1, 0));
    !loaded
}

#[test]
fn test_load_missing_file_returns_false() {
    assert!(refused(None));
}

#[test]
fn test_load_corrupt_file_returns_false() {
    assert!(refused(Some(b"not valid bincode")));
}

type ForeignState = (
    Vec<(alloy_primitives::Address, (alloy_primitives::U256, u64, alloy_primitives::B256))>,
    Vec<(alloy_primitives::Address, Vec<(alloy_primitives::U256, alloy_primitives::U256)>)>,
);

#[test]
fn load_legacy_raw_bincode_returns_false() {
    let legacy: ForeignState = (Vec::new(), Vec::new());
    assert!(
        refused(Some(&bincode::serialize(&legacy).unwrap())),
        "unversioned legacy bincode must be treated as a cache miss"
    );
}

#[test]
fn payloads_are_those_of_foreign_words_and_addresses() {
    let address = Address::repeat_byte(0x01);
    let mut accounts = SortedMap::new();
    accounts.insert(address, account(1000, 5, 0xAA));
    let mut storage = SortedMap::new();
    storage.insert(address, slots(&[(0, 42)]));
    let foreign = alloy_primitives::Address::repeat_byte(0x01);
    let number = |n: u64| alloy_primitives::U256::from(n);
    let state: ForeignState = (
        vec![(foreign, (number(1000), 5, alloy_primitives::B256::repeat_byte(0xAA)))],
        vec![(foreign, vec![(number(0), number(42))])],
    );
    let file = save_binary_state(&accounts, &storage).unwrap();
    assert_eq!(file[12..], bincode::serialize(&state).unwrap());
}

#[test]
fn state_of_another_shape_is_refused() {
    let mut accounts = SortedMap::new();
    accounts.insert(Address::repeat_byte(1), account(1, 1, 1));
    let file = save_binary_state(&accounts, &SortedMap::new()).unwrap();
    let mut other_kind = file.clone();
    other_kind[0] = 0;
    assert!(refused(Some(&other_kind)));
    let mut other_version = file.clone();
    other_version[8] = 2;
    assert!(refused(Some(&other_version)));
    assert!(refused(Some(&file[..file.len() - 1])));
    let short: (Vec<(Vec<u8>, Vec<u8>, u64, Vec<u8>)>, Vec<(Vec<u8>, Vec<u8>)>) =
        (vec![(vec![1; 19], vec![0; 32], 0, vec![0; 32])], Vec::new());
    let payload = bincode::serialize(&short).unwrap();
    assert!(refused(Some(&encode(&BINARY_STATE_MAGIC, BINARY_STATE_VERSION, &payload))));
}

fn one_code(code: &[u8]) -> BytecodeCache {
    let mut cache = BytecodeCache::default();
    cache.contracts.insert(
        Address::repeat_byte(0x42),
        BytecodeCacheEntry { bytecode: Bytes::from_slice(code) },
    );
    cache
}

#[test]
fn save_load_round_trip_through_hex_serde() {
    let addr = Address::repeat_byte(0x42);
    let cache = one_code(&[0x60, 0x00, 0x60, 0x00, 0xf3]);
    let bytes = cache.save().expect("save bytecode cache");
    assert!(bytes.starts_with(b"EFCBYTE\0"), "bytecode cache must carry a magic header");
    assert_eq!(
        &bytes[8..12],
        &1u32.to_le_bytes(),
        "bytecode cache must carry an explicit version"
    );

    let loaded = BytecodeCache::load(Some(&bytes)).expect("load bytecode cache");
    assert_eq!(
        loaded.contracts.get(&addr).map(|entry| entry.bytecode.as_slice().to_vec()),
        Some(vec![0x60, 0x00, 0x60, 0x00, 0xf3]),
        "bytecode survives the hex-encoded round trip"
    );

    let foreign = vec![(alloy_primitives::Address::repeat_byte(0x42), "0x60006000f3".to_string())];
    assert_eq!(bytes[12..], bincode::serialize(&foreign).unwrap());
}

#[test]
fn load_legacy_raw_bincode_is_none() {
    let legacy = vec![(alloy_primitives::Address::repeat_byte(0x42), "0x6000".to_string())];
    assert!(
        BytecodeCache::load(Some(&bincode::serialize(&legacy).unwrap())).is_none(),
        "unversioned legacy bincode must be treated as a cache miss"
    );
}

#[test]
fn load_missing_file_is_none() {
    assert!(BytecodeCache::load(None).is_none());
}

#[test]
fn code_that_is_no_text_of_digits_is_refused() {
    let load = |text: &str| {
        let rows = vec![(vec![0x42u8; 20], text.to_string())];
        let payload = bincode::serialize(&rows).unwrap();
        BytecodeCache::load(Some(&encode(&BYTECODE_CACHE_MAGIC, BYTECODE_CACHE_VERSION, &payload)))
    };
    assert!(load("0x60").is_some());
    assert!(load("60").is_some());
    assert!(load("0x6").is_none());
    assert!(load("code").is_none());
}

#[test]
fn saved_decimals_come_back() {
    let token = Address::repeat_byte(0x07);
    let mut cache = ImmutableDataCache::default();
    cache.set_token_decimals(token, 18);
    let file = cache.save().unwrap();
    assert_eq!(&file[..12], b"EFCMETA\0\x02\0\0\0");
    let foreign = vec![(alloy_primitives::Address::repeat_byte(0x07), 18u8)];
    assert_eq!(file[12..], bincode::serialize(&foreign).unwrap());
    let loaded = ImmutableDataCache::load(Some(&file)).unwrap();
    assert_eq!(loaded.get_token_decimals(token), Some(18));
    assert_eq!(loaded.len(), 1);
    assert!(ImmutableDataCache::load(None).is_none());
    assert!(ImmutableDataCache::load(Some(&file[12..])).is_none());
}

#[test]
fn payloads_are_decoded_only_in_their_frame() {
    let first = |payload: Vec<u8>| payload.first().copied();
    let file = encode(&CODE_SEED_CACHE_MAGIC, CODE_SEED_CACHE_VERSION, &[7]);
    let marks = |data: Option<&[u8]>| {
        load(data, &CODE_SEED_CACHE_MAGIC, CODE_SEED_CACHE_VERSION, first)
    };
    assert_eq!(marks(Some(&file)), Some(7));
    assert_eq!(marks(Some(&file[..12])), None);
    assert_eq!(marks(Some(&file[1..])), None);
    assert_eq!(marks(None), None);
}
