use evm_fork_cache::bytes::Bytes;
use evm_fork_cache::cache::account::{AccountInfo, Bytecode};
use evm_fork_cache::cache::builder::EvmCacheBuilder;
use evm_fork_cache::cache::evm_cache::{EvmCache, LoadedState};
use evm_fork_cache::cache::journal::JournalSlot;
use evm_fork_cache::cache::machine_state::ChangedAccount;
use evm_fork_cache::cache::metadata::ImmutableDataCache;
use evm_fork_cache::collections::SortedMap;
use evm_fork_cache::primitives::{Address, U256};

fn word(n: u64) -> U256 {
    U256::from_u64(n)
}

fn empty_cache() -> EvmCache {
    EvmCacheBuilder::new().build(
        None,
        None,
        LoadedState {
            accounts: SortedMap::new(),
            storage: SortedMap::new(),
            bytecodes: Vec::new(),
            code_seeds: SortedMap::new(),
            immutable: ImmutableDataCache::default(),
        },
    )
}

fn rich(balance: u64) -> AccountInfo {
    AccountInfo { balance: word(balance), ..AccountInfo::default() }
}

fn change(address: Address, balance: u64, slots: &[(u64, u64)]) -> ChangedAccount {
    ChangedAccount {
        address,
        touched: true,
        selfdestructed: false,
        created: false,
        info: rich(balance),
        storage: slots
            .iter()
            .map(|(slot, value)| JournalSlot { slot: word(*slot), present_value: word(*value) })
            .collect(),
    }
}

#[test]
fn accounts_are_fetched_once() {
    let mut cache = empty_cache();
    let address = Address::repeat_byte(0x11);
    assert!(cache.needs_account(address));
    assert_eq!(cache.load_account(address, Some(rich(5))), Some(rich(5)));
    assert!(!cache.needs_account(address));
    assert_eq!(cache.load_account(address, Some(rich(9))), Some(rich(5)));
}

#[test]
fn absent_accounts_stay_absent() {
    let mut cache = empty_cache();
    let address = Address::repeat_byte(0x12);
    assert_eq!(cache.load_account(address, None), None);
    assert!(!cache.needs_account(address));
    assert_eq!(cache.load_account(address, Some(rich(9))), None);
    assert!(!cache.needs_slot(address, word(1)));
    assert_eq!(cache.load_slot(address, word(1), word(4)), word(0));
}

#[test]
fn slots_are_fetched_once() {
    let mut cache = empty_cache();
    let address = Address::repeat_byte(0x13);
    cache.load_account(address, Some(rich(0)));
    assert!(cache.needs_slot(address, word(1)));
    assert_eq!(cache.load_slot(address, word(1), word(7)), word(7));
    assert!(!cache.needs_slot(address, word(1)));
    assert_eq!(cache.load_slot(address, word(1), word(8)), word(7));
    assert_eq!(cache.cached_storage_value(address, word(1)), Some(word(7)));
}

#[test]
fn a_machine_reads_back_what_it_committed() {
    let mut cache = empty_cache();
    let address = Address::repeat_byte(0x14);
    cache.load_account(address, Some(rich(1)));
    cache.load_slot(address, word(1), word(7));
    cache.commit(&vec![change(address, 3, &[(2, 5), (2, 6)])]);
    assert_eq!(cache.load_account(address, None), Some(rich(3)));
    assert_eq!(cache.cached_storage_value(address, word(1)), Some(word(7)));
    assert_eq!(cache.cached_storage_value(address, word(2)), Some(word(6)));
}

#[test]
fn untouched_accounts_are_not_committed() {
    let mut cache = empty_cache();
    let address = Address::repeat_byte(0x15);
    let mut idle = change(address, 3, &[(2, 5)]);
    idle.touched = false;
    cache.commit(&vec![idle]);
    assert!(cache.needs_account(address));
    assert!(cache.needs_slot(address, word(2)));
}

#[test]
fn destroyed_accounts_do_not_exist() {
    let mut cache = empty_cache();
    let address = Address::repeat_byte(0x16);
    cache.load_account(address, Some(rich(1)));
    cache.load_slot(address, word(1), word(7));
    let mut gone = change(address, 3, &[(2, 5)]);
    gone.selfdestructed = true;
    cache.commit(&vec![gone]);
    assert_eq!(cache.load_account(address, None), None);
    assert_eq!(cache.load_slot(address, word(1), word(9)), word(0));
    assert_eq!(cache.load_slot(address, word(2), word(9)), word(0));
}

#[test]
fn created_accounts_have_only_their_own_slots() {
    let mut cache = empty_cache();
    let address = Address::repeat_byte(0x17);
    cache.load_account(address, Some(rich(1)));
    cache.load_slot(address, word(1), word(7));
    let mut made = change(address, 3, &[(2, 5)]);
    made.created = true;
    let code = Bytecode::new_raw(Bytes::from_slice(&[0x60, 0x00]));
    made.info.code = Some(code.clone());
    cache.commit(&vec![made]);
    let seen = cache.load_account(address, None).unwrap();
    assert_eq!(seen.code_hash, code.hash_slow());
    assert_eq!(cache.load_slot(address, word(1), word(9)), word(0));
    assert_eq!(cache.load_slot(address, word(2), word(9)), word(5));

    cache.commit(&vec![change(address, 4, &[(3, 8)])]);
    assert_eq!(cache.load_slot(address, word(1), word(9)), word(0));
    assert_eq!(cache.load_slot(address, word(2), word(9)), word(5));
    assert_eq!(cache.load_slot(address, word(3), word(9)), word(8));
}

#[test]
fn code_is_found_by_its_hash() {
    let mut cache = empty_cache();
    let code = Bytecode::new_raw(Bytes::from_slice(&[0x60, 0x01]));
    let hash = code.hash_slow();
    assert_eq!(cache.code_by_hash(hash), None);
    let info = AccountInfo { code_hash: hash, code: Some(code.clone()), ..AccountInfo::default() };
    cache.load_account(Address::repeat_byte(0x18), Some(info));
    assert_eq!(cache.code_by_hash(hash), Some(code));
}
