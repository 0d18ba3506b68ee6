use evm_fork_cache::block::BlockId;
use evm_fork_cache::bytes::Bytes;
use evm_fork_cache::cache::account::{AccountInfo, Bytecode};
use evm_fork_cache::cache::base::BaseState;
use evm_fork_cache::cache::context::{BlockContext, EvmSpec};
use evm_fork_cache::cache::journal::{
    extract_access_list, touched_access, JournalAccount, JournalSlot,
};
use evm_fork_cache::cache::overlay::{AccountRead, EvmOverlay};
use evm_fork_cache::cache::snapshot::EvmSnapshot;
use evm_fork_cache::collections::{SortedMap, SortedSet};
use evm_fork_cache::primitives::{Address, B256, U256};
use std::sync::Arc;

fn word(n: u64) -> U256 {
    U256::from_u64(n)
}

fn snap(
    accounts: SortedMap<Address, AccountInfo>,
    storage: Vec<(Address, U256, U256)>,
    code_by_hash: SortedMap<B256, Bytecode>,
    block_hashes: SortedMap<u64, B256>,
) -> Arc<EvmSnapshot> {
    let mut base_storage = SortedMap::new();
    for (address, slot, value) in storage {
        let mut slots = SortedMap::new();
        slots.insert(slot, value);
        base_storage.insert(address, Arc::new(slots));
    }
    Arc::new(EvmSnapshot {
        base: Arc::new(BaseState { accounts, storage: base_storage, code_by_hash }),
        overlay_accounts: SortedMap::new(),
        overlay_storage: SortedMap::new(),
        overlay_code_by_hash: SortedMap::new(),
        storage_cleared: SortedSet::new(),
        accounts_not_existing: SortedSet::new(),
        block_hashes,
        context: BlockContext::pinned(BlockId::latest(), 42161, EvmSpec::cancun()),
        shared_memory_capacity: 64_000,
    })
}

fn nothing() -> Arc<EvmSnapshot> {
    snap(SortedMap::new(), Vec::new(), SortedMap::new(), SortedMap::new())
}

#[test]
fn test_overlay_is_send() {
    fn assert_send<T: Send>() {}
    assert_send::<EvmOverlay>();
}

#[test]
fn test_overlay_basic_from_snapshot() {
    let mut accounts = SortedMap::new();
    let info = AccountInfo {
        balance: word(1000),
        nonce: 1,
        code_hash: B256::zero(),
        code: None,
    };
    let addr = Address::repeat_byte(0x01);
    accounts.insert(addr, info);

    let snapshot = snap(accounts, Vec::new(), SortedMap::new(), SortedMap::new());

    let overlay = EvmOverlay::new(snapshot);
    let result = overlay.basic(addr);
    assert!(result.is_some());
    assert_eq!(result.unwrap().balance, word(1000));
}

#[test]
fn test_overlay_storage_from_snapshot() {
    let addr = Address::repeat_byte(0x01);
    let slot = word(42);
    let value = word(999);

    let snapshot =
        snap(SortedMap::new(), vec![(addr, slot, value)], SortedMap::new(), SortedMap::new());

    let overlay = EvmOverlay::new(snapshot);
    let result = overlay.storage(addr, slot);
    assert_eq!(result, value);
}

#[test]
fn test_overlay_dirty_overrides_snapshot() {
    let addr = Address::repeat_byte(0x01);
    let slot = word(42);

    let snapshot =
        snap(SortedMap::new(), vec![(addr, slot, word(100))], SortedMap::new(), SortedMap::new());

    let mut overlay = EvmOverlay::new(snapshot);

    // Write to dirty layer
    overlay.override_slot(addr, slot, word(200));

    // Should read dirty value, not snapshot
    let result = overlay.storage(addr, slot);
    assert_eq!(result, word(200));
}

#[test]
fn test_overlay_missing_returns_zero() {
    let overlay = EvmOverlay::new(nothing());
    let addr = Address::repeat_byte(0x99);
    let result = overlay.storage(addr, word(1));
    assert_eq!(result, U256::zero());

    let account = overlay.basic(addr);
    assert!(account.is_none());
}

#[test]
fn test_overlay_code_by_hash_from_snapshot() {
    let code = Bytecode::new_raw(Bytes::from_vec(vec![0x60, 0x00, 0x60, 0x00]));
    let hash = code.hash_slow();

    let mut code_by_hash = SortedMap::new();
    code_by_hash.insert(hash, code.clone());

    let snapshot = snap(SortedMap::new(), Vec::new(), code_by_hash, SortedMap::new());

    let overlay = EvmOverlay::new(snapshot);
    let result = overlay.code_by_hash(hash);
    assert_eq!(result.len(), 4);
}

#[test]
fn test_overlay_block_hash() {
    let mut block_hashes = SortedMap::new();
    let hash = B256::repeat_byte(0xAB);
    block_hashes.insert(42u64, hash);

    let snapshot = snap(SortedMap::new(), Vec::new(), SortedMap::new(), block_hashes);

    let overlay = EvmOverlay::new(snapshot);
    assert_eq!(overlay.block_hash(42), hash);
    assert_eq!(overlay.block_hash(99), B256::zero());
}

#[test]
fn test_snapshot_is_send_sync() {
    fn assert_send_sync<T: Send + Sync>() {}
    assert_send_sync::<EvmSnapshot>();
    assert_send_sync::<Arc<EvmSnapshot>>();
}

#[test]
fn test_empty_snapshot() {
    let snap = EvmSnapshot {
        base: Arc::new(BaseState {
            accounts: SortedMap::new(),
            storage: SortedMap::new(),
            code_by_hash: SortedMap::new(),
        }),
        overlay_accounts: SortedMap::new(),
        overlay_storage: SortedMap::new(),
        overlay_code_by_hash: SortedMap::new(),
        storage_cleared: SortedSet::new(),
        accounts_not_existing: SortedSet::new(),
        block_hashes: SortedMap::new(),
        context: BlockContext {
            block_number: Some(100),
            basefee: Some(1000),
            ..BlockContext::pinned(BlockId::latest(), 42161, EvmSpec::cancun())
        },
        shared_memory_capacity: 0,
    };
    assert_eq!(snap.context.chain_id, 42161);
    assert_eq!(snap.context.block_number, Some(100));
}

#[test]
fn a_reset_overlay_reads_the_snapshot_again() {
    let addr = Address::repeat_byte(0x01);
    let snapshot =
        snap(SortedMap::new(), vec![(addr, word(1), word(5))], SortedMap::new(), SortedMap::new());
    let mut overlay = EvmOverlay::new(snapshot);
    overlay.override_slot(addr, word(1), word(6));
    assert_eq!(overlay.lookup_storage(addr, word(1)), Some(word(6)));
    overlay.reset();
    assert_eq!(overlay.storage(addr, word(1)), word(5));
    assert_eq!(overlay.chain_id(), 42161);
    assert_eq!(overlay.block_number(), None);
    assert_eq!(overlay.basefee(), None);
    assert_eq!(overlay.timestamp(), None);
    assert_eq!(overlay.beneficiary(), Address::zero());
    assert_eq!(overlay.buffer_capacity(), 64_000);
}

#[test]
fn fetched_state_is_kept_in_the_overlay() {
    let addr = Address::repeat_byte(0x01);
    let mut overlay = EvmOverlay::new(nothing());
    assert!(matches!(overlay.lookup_account(addr), AccountRead::Unknown));
    let info = AccountInfo { balance: word(3), ..AccountInfo::default() };
    let read = overlay.absorb_account(addr, Some(info));
    assert_eq!(read.map(|info| info.balance), Some(word(3)));
    assert_eq!(overlay.basic(addr).map(|info| info.balance), Some(word(3)));
    assert_eq!(overlay.lookup_storage(addr, word(1)), None);
    assert_eq!(overlay.absorb_storage(addr, word(1), word(9)), word(9));
    assert_eq!(overlay.lookup_storage(addr, word(1)), Some(word(9)));
    assert_eq!(overlay.lookup_block_hash(4), None);
    assert!(overlay.lookup_code(B256::repeat_byte(7)).is_none());
}

fn journal() -> Vec<JournalAccount> {
    let account = |byte: u8, touched: bool| JournalAccount {
        address: Address::repeat_byte(byte),
        touched,
        info: AccountInfo { balance: word(byte as u64), ..AccountInfo::default() },
        storage: vec![JournalSlot { slot: word(1), present_value: word(7) }],
    };
    vec![account(1, true), account(2, false)]
}

#[test]
fn committed_changes_are_read_back() {
    let mut overlay = EvmOverlay::new(nothing());
    overlay.commit(&journal());
    assert_eq!(overlay.storage(Address::repeat_byte(1), word(1)), word(7));
    assert_eq!(
        overlay.basic(Address::repeat_byte(1)).map(|info| info.balance),
        Some(word(1))
    );
    assert_eq!(
        overlay.basic(Address::repeat_byte(2)).map(|info| info.balance),
        Some(word(2))
    );
}

#[test]
fn only_touched_accounts_are_listed() {
    let list = extract_access_list(&journal());
    assert_eq!(list.items.len(), 1);
    assert_eq!(list.items[0].address, Address::repeat_byte(1));
    assert_eq!(list.items[0].storage_keys, vec![B256 { hi: 0, lo: 1 }]);
    let access = touched_access(&journal());
    assert_eq!(access.accounts.to_vec(), vec![Address::repeat_byte(1)]);
    assert_eq!(access.slot_count(), 1);
}
