use evm_fork_cache::access_list::{
    access_list_if_profitable, access_list_rlp_data_gas, apply_access_list, arb_gas_info,
    compute_op_l1_fee, copy_access_list, l1_base_fee_oracle, l1_data_gas_for_bytes,
    merge_access_lists, op_gas_price_oracle, op_l1_fee_calldata, op_l1_fee_reply,
    read_set_from_probe, resolve_access_list, try_resolve_access_list, AccessList, AccessListCall, AccessListError,
    AccessListItem, AccessListPricing, ChainType, FALLBACK_PROBE_GAS_PRICE, CreateAccessListProbe,
    CreateAccessListProbeItem, SmartAccessList, TransactionDraft,
};
use evm_fork_cache::access_set::StorageAccessList;
use evm_fork_cache::bytes::Bytes;
use evm_fork_cache::primitives::{Address, SlotKey, B256, U256};

fn word_hash(n: u64) -> B256 {
    B256 { hi: 0, lo: n as u128 }
}

fn slot(address: Address, n: u64) -> SlotKey {
    SlotKey { address, slot: U256::from_u64(n) }
}

fn item(byte: u8, keys: &[u64]) -> AccessListItem {
    AccessListItem {
        address: Address::repeat_byte(byte),
        storage_keys: keys.iter().map(|n| word_hash(*n)).collect(),
    }
}

fn access(accounts: &[Address], slots: &[SlotKey]) -> StorageAccessList {
    let mut list = StorageAccessList::default();
    for account in accounts {
        list.accounts.insert(*account);
    }
    for key in slots {
        list.slots.insert(*key);
    }
    list
}

#[test]
fn add_address_deduplicates_address_only_entries() {
    let address = Address::repeat_byte(0xAA);
    let mut al = SmartAccessList::new();

    al.add_address(address);
    al.add_address(address);

    let access_list = al.into_access_list_always().expect("non-empty");
    assert_eq!(access_list.items.len(), 1);
    assert_eq!(access_list.items[0].address, address);
    assert!(access_list.items[0].storage_keys.is_empty());
}

#[test]
fn add_storage_key_deduplicates_keys() {
    let address = Address::repeat_byte(0xBB);
    let key = word_hash(4);
    let mut al = SmartAccessList::new();

    al.add_storage_key(address, key);
    al.add_storage_key(address, key);

    let access_list = al.into_access_list_always().expect("should return Some");
    assert_eq!(access_list.items.len(), 1);
    assert_eq!(access_list.items[0].address, address);
    assert_eq!(access_list.items[0].storage_keys, vec![key]);
}

#[test]
fn into_access_list_always_returns_none_when_empty() {
    let al = SmartAccessList::new();
    assert!(al.into_access_list_always().is_none());
}

#[test]
fn l1_gas_for_nonzero_address_bytes_is_expensive() {
    let addr = Address::repeat_byte(0xFF);
    assert_eq!(l1_data_gas_for_bytes(&addr.to_vec()), 320);
}

#[test]
fn access_list_rlp_data_gas_uses_exact_eip2930_encoding() {
    let access_list = AccessList {
        items: vec![AccessListItem { address: Address::zero(), storage_keys: Vec::new() }],
    };

    // Four non-zero framing bytes and twenty zero address bytes.
    assert_eq!(access_list_rlp_data_gas(&access_list), 144);
}

#[test]
fn marginal_gas_savings_counts_only_overlap() {
    let account_a = Address::repeat_byte(0x01);
    let account_b = Address::repeat_byte(0x02);

    let al = access(&[account_a, account_b], &[slot(account_a, 1), slot(account_b, 2)]);
    let warm = access(&[account_a], &[slot(account_b, 2)]);

    assert_eq!(al.marginal_gas_savings(&warm), 4500);
}

#[test]
fn eip2930_conversion_includes_address_only_entries() {
    let account = Address::repeat_byte(0x01);
    let storage_contract = Address::repeat_byte(0x02);
    let al = access(&[account], &[slot(storage_contract, 4)]);

    let encoded = al.to_eip2930();

    assert_eq!(encoded.items.len(), 2);
    assert!(encoded
        .items
        .iter()
        .any(|item| item.address == account && item.storage_keys.is_empty()));
    assert!(encoded
        .items
        .iter()
        .any(|item| item.address == storage_contract && item.storage_keys == vec![word_hash(4)]));
}

#[test]
fn missing_from_returns_only_unwarmed_accounts_and_slots() {
    let warm_account = Address::repeat_byte(0x01);
    let cold_account = Address::repeat_byte(0x02);
    let warm_slot = slot(warm_account, 1);
    let cold_slot = slot(cold_account, 2);
    let required = access(&[warm_account, cold_account], &[warm_slot, cold_slot]);
    let available = access(&[warm_account], &[warm_slot]);

    let missing = required.missing_from(&available);

    assert_eq!(missing.accounts.to_vec(), vec![cold_account]);
    assert_eq!(missing.slots.to_vec(), vec![cold_slot]);
    assert!(!required.is_covered_by(&available));
    assert!(available.is_covered_by(&required));
}

#[test]
fn missing_from_includes_code_and_block_hash_dependencies() {
    let warm_code = B256::repeat_byte(0x11);
    let cold_code = B256::repeat_byte(0x22);
    let mut required = StorageAccessList::default();
    required.code_hashes.insert(warm_code);
    required.code_hashes.insert(cold_code);
    required.block_numbers.insert(90);
    required.block_numbers.insert(91);
    let mut available = StorageAccessList::default();
    available.code_hashes.insert(warm_code);
    available.block_numbers.insert(90);

    let missing = required.missing_from(&available);

    assert_eq!(missing.code_hashes.to_vec(), vec![cold_code]);
    assert_eq!(missing.block_numbers.to_vec(), vec![91]);
    assert!(!required.is_covered_by(&available));
}

#[test]
fn covered_sets_miss_nothing_and_extended_sets_cover() {
    let a = Address::repeat_byte(0x01);
    let b = Address::repeat_byte(0x02);
    let left = access(&[a], &[slot(a, 1)]);
    let mut both = access(&[b], &[slot(b, 2)]);
    both.extend(&left);
    assert!(left.is_covered_by(&both));
    assert!(left.missing_from(&both).is_empty());
    assert_eq!(both.account_count(), 2);
    assert_eq!(both.slot_count(), 2);
    assert_eq!(both.code_hash_count(), 0);
    assert_eq!(both.block_hash_count(), 0);
}

#[test]
fn merged_lists_have_one_entry_per_address_and_every_key() {
    let merged = merge_access_lists(vec![
        AccessList { items: vec![item(0x02, &[1, 2])] },
        AccessList { items: vec![item(0x01, &[]), item(0x02, &[2, 3])] },
    ]);
    assert_eq!(merged.items.len(), 2);
    let of = |byte: u8| {
        merged
            .items
            .iter()
            .find(|entry| entry.address == Address::repeat_byte(byte))
            .map(|entry| entry.storage_keys.len())
    };
    assert_eq!(of(0x02), Some(3));
    assert_eq!(of(0x01), Some(0));
}

#[test]
fn empty_list_is_never_profitable() {
    let none = AccessList { items: Vec::new() };
    assert!(access_list_if_profitable(none, U256::from_u64(1), U256::from_u64(0)).is_none());
}

#[test]
fn list_is_kept_where_saved_gas_outweighs_data_fee() {
    // One entry saves 100 gas; its 144 units of data gas are charged at the base fee.
    let list = || AccessList { items: vec![item(0x00, &[])] };
    assert!(access_list_if_profitable(list(), U256::from_u64(1_000), U256::from_u64(1)).is_some());
    assert!(access_list_if_profitable(list(), U256::from_u64(1), U256::from_u64(1_000)).is_none());
}

#[test]
fn list_on_a_chain_without_data_fee_is_kept() {
    let list = AccessList { items: vec![item(0xAA, &[])] };
    let same = copy_access_list(&list);
    assert_eq!(resolve_access_list(list, &AccessListPricing::L1), Some(same));
    let none = AccessList { items: Vec::new() };
    assert!(resolve_access_list(none, &AccessListPricing::L1).is_none());
}

#[test]
fn list_is_priced_by_the_difference_of_data_fees() {
    let list = || AccessList { items: vec![item(0xAA, &[])] };
    let pricing = |with: u64| AccessListPricing::OpStack {
        l2_gas_price: U256::from_u64(100),
        l1_fee_without: U256::from_u64(1_000),
        l1_fee_with: U256::from_u64(with),
    };
    assert_eq!(resolve_access_list(list(), &pricing(1_010)), Some(list()));
    assert!(resolve_access_list(list(), &pricing(20_000)).is_none());
    assert_eq!(try_resolve_access_list(list(), &pricing(1_010)), Ok(Some(list())));
}

#[test]
fn data_fee_is_the_returned_word_or_zero() {
    let mut data = Vec::new();
    U256::from_u64(77).append_to(&mut data);
    assert_eq!(compute_op_l1_fee(Some(&data)), U256::from_u64(77));
    assert_eq!(compute_op_l1_fee(Some(&data[..31])), U256::zero());
    assert_eq!(compute_op_l1_fee(None), U256::zero());
}

#[test]
fn data_fee_calldata_is_selector_and_abi_encoded_bytes() {
    let data = op_l1_fee_calldata(&[1, 2, 3]);
    let bytes = data.as_slice();
    assert_eq!(&bytes[..4], &[0x49, 0x94, 0x8e, 0x0e]);
    assert_eq!(bytes.len(), 4 + 32 + 32 + 32);
    assert_eq!(bytes[4 + 31], 32);
    assert_eq!(bytes[4 + 63], 3);
    assert_eq!(&bytes[4 + 64..4 + 67], &[1, 2, 3]);
}

#[test]
fn oracles_are_at_their_addresses() {
    assert_eq!(l1_base_fee_oracle(ChainType::L1), None);
    assert_eq!(l1_base_fee_oracle(ChainType::Arbitrum), Some(arb_gas_info()));
    assert_eq!(arb_gas_info(), Address { hi: 0, lo: 0x6c });
    assert_eq!(
        op_gas_price_oracle(),
        Address { hi: 0x4200_0000, lo: 0x0f }
    );
}

#[test]
fn applied_list_leaves_out_the_sender_and_excluded_accounts() {
    let sender = Address::repeat_byte(0x01);
    let other = Address::repeat_byte(0x02);
    let mut tx = TransactionDraft { to: Some(Address::repeat_byte(0x03)), access_list: None };
    let mut list = AccessList {
        items: vec![item(0x01, &[]), item(0x02, &[7]), item(0x04, &[1])],
    };
    apply_access_list(&mut tx, &mut list, sender, &[Address::repeat_byte(0x04)]);
    let applied = tx.access_list.expect("something is left");
    assert!(applied.items.iter().all(|entry| entry.address != sender));
    assert!(applied.items.iter().any(|entry| entry.address == other));
}

#[test]
fn probe_without_price_uses_the_base_fee() {
    let call = AccessListCall::new(Address::zero(), Address::repeat_byte(1), Bytes::new());
    assert_eq!(call.probe_gas_price(Some(9)), 9);
    assert_eq!(call.probe_gas_price(None), FALLBACK_PROBE_GAS_PRICE);
    let priced =
        AccessListCall::new(Address::zero(), Address::repeat_byte(1), Bytes::new()).with_gas_price(5);
    assert_eq!(priced.probe_gas_price(Some(9)), 5);
}

#[test]
fn probe_reports_its_error_or_its_reads() {
    let reads = read_set_from_probe(CreateAccessListProbe {
        access_list: vec![CreateAccessListProbeItem {
            address: Address::repeat_byte(0x05),
            storage_keys: Some(vec![word_hash(3)]),
        }],
        error: None,
    })
    .expect("no error");
    assert_eq!(reads.accounts.to_vec(), vec![Address::repeat_byte(0x05)]);
    assert_eq!(reads.slots.to_vec(), vec![slot(Address::repeat_byte(0x05), 3)]);

    let failed = read_set_from_probe(CreateAccessListProbe {
        access_list: Vec::new(),
        error: Some("reverted".to_string()),
    });
    assert_eq!(
        failed.err(),
        Some(AccessListError::Query {
            operation: "eth_createAccessList execution".to_string(),
            details: "reverted".to_string(),
        })
    );
}

#[test]
fn a_set_is_empty_without_accounts_and_slots() {
    let mut set = StorageAccessList::default();
    assert!(set.is_empty());
    set.code_hashes.insert(word_hash(1));
    assert!(set.is_empty());
    set.block_numbers.insert(7);
    assert!(set.is_empty());
    set.slots.insert(slot(Address::repeat_byte(1), 2));
    assert!(!set.is_empty());
}

#[test]
fn fee_replies_are_one_number_of_any_length() {
    assert_eq!(op_l1_fee_reply(&[]), Some(U256::zero()));
    assert_eq!(op_l1_fee_reply(&[1, 2]), Some(U256::from_u64(258)));
    let mut data = vec![0; 8];
    U256::from_u64(77).append_to(&mut data);
    assert_eq!(op_l1_fee_reply(&data), Some(U256::from_u64(77)));
    assert_eq!(op_l1_fee_reply(&[0xff; 32]), Some(U256::max_value()));
    data[7] = 1;
    assert_eq!(op_l1_fee_reply(&data), None);
}

#[test]
fn calldata_of_whole_words_has_no_fill() {
    let data = op_l1_fee_calldata(&[9; 32]);
    assert_eq!(data.len(), 4 + 32 + 32 + 32);
    let empty = op_l1_fee_calldata(&[]);
    assert_eq!(empty.len(), 4 + 32 + 32);
    assert_eq!(empty.as_slice()[4 + 31], 32);
    assert!(empty.as_slice()[4 + 32..].iter().all(|byte| *byte == 0));
}

#[test]
fn builders_keep_the_order_of_first_calls() {
    assert!(SmartAccessList::new().into_access_list_always().is_none());
    let mut builder = SmartAccessList::new();
    let (a, b) = (Address::repeat_byte(1), Address::repeat_byte(2));
    builder.add_storage_key(b, word_hash(5));
    builder.add_address(a);
    builder.add_storage_key(b, word_hash(3));
    builder.add_storage_key(a, word_hash(9));
    builder.add_storage_key(b, word_hash(5));
    builder.add_address(b);
    let list = builder.into_access_list_always().expect("calls were made");
    assert_eq!(list.items, vec![item(2, &[5, 3]), item(1, &[9])]);
}
