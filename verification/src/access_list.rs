//! Access lists: building, pricing and applying them.
//!
//! On a rollup an access list pays off only where what it saves in execution
//! is more than what its bytes cost to post.

use crate::access_set::{AccessModel, StorageAccessList};
use crate::bytes::Bytes;
use crate::collections::Key;
use crate::foreign::{
    access_list_rlp, bytes_argument, decode_uint256, encode_access_list, encode_bytes_argument,
    uint256_result, wrapping_product,
};
use crate::primitives::{
    be_value, byte_base, lemma_be_value_concat, lemma_byte_base_monotone, lemma_byte_base_values,
    pow_256, Address, SlotKey, B256, U256,
};
use vstd::prelude::*;

verus! {

/// One entry of an access list.
#[derive(Debug, PartialEq, Eq)]
pub struct AccessListItem {
    /// The account.
    pub address: Address,
    /// Storage keys of the account.
    pub storage_keys: Vec<B256>,
}

/// What an entry holds.
pub type Entry = (Address, Seq<B256>);

impl View for AccessListItem {
    type V = Entry;

    open spec fn view(&self) -> Entry {
        (self.address, self.storage_keys@)
    }
}

/// What a list of entries holds.
pub open spec fn entries_of(items: Seq<AccessListItem>) -> Seq<Entry> {
    items.map_values(|item: AccessListItem| item@)
}

/// An EIP-2930 access list.
#[derive(Debug, PartialEq, Eq)]
pub struct AccessList {
    /// The entries.
    pub items: Vec<AccessListItem>,
}

impl View for AccessList {
    type V = Seq<Entry>;

    open spec fn view(&self) -> Seq<Entry> {
        entries_of(self.items@)
    }
}

/// Gas cap of a probe that does not set its own.
pub const DEFAULT_CREATE_ACCESS_LIST_GAS_CAP: u64 = 30_000_000;

/// Gas price of a probe where neither the call nor the pinned block gives one.
pub const FALLBACK_PROBE_GAS_PRICE: u128 = 1_000_000_000;

/// The address of the Arbitrum gas oracle.
pub fn arb_gas_info() -> (r: Address)
    ensures
        r@ == 0x6c,
{
    Address { hi: 0, lo: 0x6c }
}

/// The address of the OP Stack gas price oracle.
pub fn op_gas_price_oracle() -> (r: Address)
    ensures
        r == (Address { hi: 0x42000000, lo: 0x0f }),
{
    Address { hi: 0x42000000, lo: 0x0f }
}

/// A call whose read set a provider derives.
#[derive(Debug, PartialEq, Eq)]
pub struct AccessListCall {
    /// The sender.
    pub from: Address,
    /// The contract.
    pub to: Address,
    /// The calldata.
    pub input: Bytes,
    /// The gas cap.
    pub gas: u64,
    /// The gas price, if the call sets one.
    pub gas_price: Option<u128>,
}

impl AccessListCall {
    /// A call with the default gas cap and no gas price.
    pub fn new(from: Address, to: Address, input: Bytes) -> (r: Self)
        ensures
            r == (AccessListCall {
                from,
                to,
                input,
                gas: DEFAULT_CREATE_ACCESS_LIST_GAS_CAP,
                gas_price: None,
            }),
    {
        AccessListCall {
            from,
            to,
            input,
            gas: DEFAULT_CREATE_ACCESS_LIST_GAS_CAP,
            gas_price: None,
        }
    }

    /// The call with another gas cap.
    pub fn with_gas(self, gas: u64) -> (r: Self)
        ensures
            r == (AccessListCall { gas, ..self }),
    {
        AccessListCall { gas, ..self }
    }

    /// The call with a gas price.
    pub fn with_gas_price(self, gas_price: u128) -> (r: Self)
        ensures
            r == (AccessListCall { gas_price: Some(gas_price), ..self }),
    {
        AccessListCall { gas_price: Some(gas_price), ..self }
    }

    /// The gas price to probe with: the call's own, else the pinned block's
    /// base fee, else one gwei.
    pub fn probe_gas_price(&self, pinned_base_fee: Option<u128>) -> (r: u128)
        ensures
            r == match (self.gas_price, pinned_base_fee) {
                (Some(price), _) => price,
                (None, Some(fee)) => fee,
                (None, None) => FALLBACK_PROBE_GAS_PRICE,
            },
    {
        match self.gas_price {
            Some(price) => price,
            None => match pinned_base_fee {
                Some(fee) => fee,
                None => FALLBACK_PROBE_GAS_PRICE,
            },
        }
    }
}

/// One entry of a probe response. Some clients leave the keys out.
#[derive(Debug, PartialEq, Eq)]
pub struct CreateAccessListProbeItem {
    /// The account.
    pub address: Address,
    /// Its storage keys, if there are any.
    pub storage_keys: Option<Vec<B256>>,
}

/// A probe response.
#[derive(Debug, PartialEq, Eq)]
pub struct CreateAccessListProbe {
    /// The entries.
    pub access_list: Vec<CreateAccessListProbeItem>,
    /// What the execution reported, if it failed.
    pub error: Option<String>,
}

/// Why an access list could not be derived or priced.
#[derive(Debug, PartialEq, Eq)]
pub enum AccessListError {
    /// A query failed.
    Query {
        /// What was asked.
        operation: String,
        /// What was reported.
        details: String,
    },
}

/// Whether some entry of a probe response names `address`.
pub open spec fn probe_names(items: Seq<CreateAccessListProbeItem>, address: Address) -> bool {
    exists|i: int| 0 <= i < items.len() && (#[trigger] items[i]).address == address
}

/// Whether some entry of a probe response names `key` at `address`.
pub open spec fn probe_reads(items: Seq<CreateAccessListProbeItem>, key: SlotKey) -> bool {
    exists|i: int|
        0 <= i < items.len() && (#[trigger] items[i]).address == key.address && (
        items[i].storage_keys matches Some(keys) && keys@.contains(
            B256 { hi: key.slot.hi, lo: key.slot.lo },
        ))
}

/// The touch set that a probe response names.
pub open spec fn probe_model(items: Seq<CreateAccessListProbeItem>) -> AccessModel {
    AccessModel {
        accounts: Set::new(|a: Address| probe_names(items, a)),
        code_hashes: Set::empty(),
        slots: Set::new(|k: SlotKey| probe_reads(items, k)),
        block_numbers: Set::empty(),
    }
}

/// Adds the slots of one account.
fn add_keys(access: &mut StorageAccessList, address: Address, keys: &Vec<B256>)
    ensures
        final(access).accounts == old(access).accounts,
        final(access).code_hashes == old(access).code_hashes,
        final(access).block_numbers == old(access).block_numbers,
        forall|k: SlotKey| #[trigger]
            final(access)@.slots.contains(k) <==> old(access)@.slots.contains(k) || (k.address
                == address && keys@.contains(B256 { hi: k.slot.hi, lo: k.slot.lo })),
{
    let n: usize = keys.len();
    let mut i: usize = 0;
    while i < n
        invariant
            i <= n == keys@.len(),
            access.accounts == old(access).accounts,
            access.code_hashes == old(access).code_hashes,
            access.block_numbers == old(access).block_numbers,
            forall|k: SlotKey| #[trigger]
                access@.slots.contains(k) <==> old(access)@.slots.contains(k) || (k.address
                    == address && keys@.take(i as int).contains(
                    B256 { hi: k.slot.hi, lo: k.slot.lo },
                )),
        decreases n - i,
    {
        let key: B256 = keys[i];
        let slot = SlotKey { address, slot: key.to_word() };
        let ghost before = access@.slots;
        access.slots.insert(slot);
        proof {
            let less = keys@.take(i as int);
            let more = keys@.take(i as int + 1);
            assert(more =~= less.push(key));
            B256::lemma_injective(B256 { hi: slot.slot.hi, lo: slot.slot.lo }, key);
            assert forall|k: SlotKey| #[trigger] access@.slots.contains(k) <==>
                old(access)@.slots.contains(k) || (k.address == address && more.contains(
                B256 { hi: k.slot.hi, lo: k.slot.lo },
            )) by {
                let want = B256 { hi: k.slot.hi, lo: k.slot.lo };
                if less.contains(want) {
                    let j = less.index_of(want);
                    assert(more[j] == want);
                }
                if want == key {
                    assert(more[i as int] == want);
                }
                if more.contains(want) {
                    let j = more.index_of(want);
                    if j < i {
                        assert(less[j] == want);
                    }
                }
                assert(access@.slots.contains(k) == (before.contains(k) || k == slot));
            }
        }
        i = i + 1;
    }
    assert(keys@.take(n as int) =~= keys@);
}

/// The touch set of a probe response. A failed execution is an error, never an
/// empty touch set.
pub fn read_set_from_probe(probe: CreateAccessListProbe) -> (r: Result<
    StorageAccessList,
    AccessListError,
>)
    ensures
        match (probe.error, r) {
            (Some(details), Err(AccessListError::Query { operation, details: reported })) => {
                operation@ == "eth_createAccessList execution"@ && reported@ == details@
            },
            (None, Ok(access)) => access@ == probe_model(probe.access_list@),
            _ => false,
        },
{
    if let Some(details) = probe.error {
        return Err(
            AccessListError::Query {
                operation: "eth_createAccessList execution".to_owned(),
                details,
            },
        );
    }
    let items = probe.access_list;
    let mut access: StorageAccessList = StorageAccessList::default();
    let n: usize = items.len();
    let mut i: usize = 0;
    while i < n
        invariant
            i <= n == items@.len(),
            access@.code_hashes == Set::<B256>::empty(),
            access@.block_numbers == Set::<u64>::empty(),
            forall|a: Address| #[trigger]
                access@.accounts.contains(a) <==> probe_names(items@.take(i as int), a),
            forall|k: SlotKey| #[trigger]
                access@.slots.contains(k) <==> probe_reads(items@.take(i as int), k),
        decreases n - i,
    {
        let address: Address = items[i].address;
        let ghost before = access@;
        access.accounts.insert(address);
        if let Some(keys) = &items[i].storage_keys {
            add_keys(&mut access, address, keys);
        }
        proof {
            let less = items@.take(i as int);
            let more = items@.take(i as int + 1);
            assert(more =~= less.push(items@[i as int]));
            assert forall|a: Address| #[trigger] access@.accounts.contains(a) <==> probe_names(
                more,
                a,
            ) by {
                assert(access@.accounts.contains(a) == (before.accounts.contains(a) || a
                    == address));
                if probe_names(less, a) {
                    let j = choose|j: int| 0 <= j < less.len() && (#[trigger] less[j]).address == a;
                    assert(more[j].address == a);
                }
                if a == address {
                    assert(more[i as int].address == a);
                }
                if probe_names(more, a) {
                    let j = choose|j: int| 0 <= j < more.len() && (#[trigger] more[j]).address == a;
                    if j < i {
                        assert(less[j].address == a);
                    }
                }
            }
            assert forall|k: SlotKey| #[trigger] access@.slots.contains(k) <==> probe_reads(
                more,
                k,
            ) by {
                if probe_reads(less, k) {
                    let j = choose|j: int|
                        0 <= j < less.len() && (#[trigger] less[j]).address == k.address && (
                        less[j].storage_keys matches Some(keys) && keys@.contains(
                            B256 { hi: k.slot.hi, lo: k.slot.lo },
                        ));
                    assert(more[j].address == k.address);
                }
                if probe_reads(more, k) {
                    let j = choose|j: int|
                        0 <= j < more.len() && (#[trigger] more[j]).address == k.address && (
                        more[j].storage_keys matches Some(keys) && keys@.contains(
                            B256 { hi: k.slot.hi, lo: k.slot.lo },
                        ));
                    if j < i {
                        assert(less[j].address == k.address);
                    }
                }
                assert(more[i as int] == items@[i as int]);
                assert(before.slots.contains(k) == probe_reads(less, k));
            }
        }
        i = i + 1;
    }
    proof {
        assert(items@.take(n as int) =~= items@);
        assert(access@ =~= probe_model(items@));
    }
    Ok(access)
}

/// Whether `i` is the first entry of `address`.
pub open spec fn is_first(list: Seq<Entry>, address: Address, i: int) -> bool {
    &&& 0 <= i < list.len()
    &&& list[i].0 == address
    &&& forall|j: int| 0 <= j < i ==> (#[trigger] list[j]).0 != address
}

/// Whether there is an entry of `address`.
pub open spec fn has_entry(list: Seq<Entry>, address: Address) -> bool {
    exists|i: int| is_first(list, address, i)
}

/// The first entry of `address`.
pub open spec fn first_entry(list: Seq<Entry>, address: Address) -> int {
    choose|i: int| is_first(list, address, i)
}

/// `keys` with `key` at the end, unless it is there already.
pub open spec fn with_unique(keys: Seq<B256>, key: B256) -> Seq<B256> {
    if keys.contains(key) {
        keys
    } else {
        keys.push(key)
    }
}

/// `keys` with every key of `more` that is new.
pub open spec fn with_all_unique(keys: Seq<B256>, more: Seq<B256>) -> Seq<B256>
    decreases more.len(),
{
    if more.len() == 0 {
        keys
    } else {
        with_unique(with_all_unique(keys, more.drop_last()), more.last())
    }
}

/// `list` with an entry of `address`.
pub open spec fn with_address(list: Seq<Entry>, address: Address) -> Seq<Entry> {
    if has_entry(list, address) {
        list
    } else {
        list.push((address, Seq::empty()))
    }
}

/// `list` with the keys of `entry` in the first entry of its address, or with
/// `entry` at the end.
pub open spec fn with_entry(list: Seq<Entry>, entry: Entry) -> Seq<Entry> {
    if has_entry(list, entry.0) {
        let i = first_entry(list, entry.0);
        list.update(i, (entry.0, with_all_unique(list[i].1, entry.1)))
    } else {
        list.push(entry)
    }
}

/// The first entry of `address`, if there is one.
fn find_entry(items: &Vec<AccessListItem>, address: Address) -> (r: Option<usize>)
    ensures
        match r {
            Some(i) => is_first(entries_of(items@), address, i as int) && i == first_entry(
                entries_of(items@),
                address,
            ) && has_entry(entries_of(items@), address),
            None => !has_entry(entries_of(items@), address),
        },
{
    let n: usize = items.len();
    let mut i: usize = 0;
    let ghost list = entries_of(items@);
    while i < n
        invariant
            i <= n == items@.len(),
            list == entries_of(items@),
            forall|j: int| 0 <= j < i ==> (#[trigger] list[j]).0 != address,
        decreases n - i,
    {
        assert(list[i as int] == items@[i as int]@);
        if items[i].address == address {
            proof {
                assert(is_first(list, address, i as int));
                let f = first_entry(list, address);
                assert(is_first(list, address, f));
                assert(f == i) by {
                    if f < i {
                        assert(list[f].0 != address);
                    }
                    if f > i {
                        assert(list[i as int].0 != address);
                    }
                }
            }
            return Some(i);
        }
        i = i + 1;
    }
    None
}

/// Adds a key unless it is there already.
fn push_unique(keys: &mut Vec<B256>, key: B256)
    ensures
        final(keys)@ == with_unique(old(keys)@, key),
{
    let n: usize = keys.len();
    let mut i: usize = 0;
    while i < n
        invariant
            i <= n == keys@.len(),
            keys@ == old(keys)@,
            forall|j: int| 0 <= j < i ==> keys@[j] != key,
        decreases n - i,
    {
        if keys[i] == key {
            assert(keys@.contains(key));
            return;
        }
        i = i + 1;
    }
    keys.push(key);
}

/// Adds the keys of one entry to a list of entries.
fn merge_item(items: &mut Vec<AccessListItem>, item: AccessListItem)
    ensures
        entries_of(final(items)@) == with_entry(entries_of(old(items)@), item@),
{
    let ghost list = entries_of(items@);
    match find_entry(items, item.address) {
        Some(i) => {
            let mut keys: Vec<B256> = Vec::new();
            let AccessListItem { address, storage_keys } = item;
            assert(list[i as int] == items@[i as int]@);
            std::mem::swap(&mut keys, &mut items[i].storage_keys);
            let ghost start = keys@;
            let n: usize = storage_keys.len();
            let mut k: usize = 0;
            assert(storage_keys@.take(0) =~= Seq::<B256>::empty());
            while k < n
                invariant
                    k <= n == storage_keys@.len(),
                    keys@ == with_all_unique(start, storage_keys@.take(k as int)),
                decreases n - k,
            {
                push_unique(&mut keys, storage_keys[k]);
                assert(storage_keys@.take(k as int + 1).drop_last() =~= storage_keys@.take(
                    k as int,
                ));
                k = k + 1;
            }
            assert(storage_keys@.take(n as int) =~= storage_keys@);
            items[i].storage_keys = keys;
            assert(entries_of(items@) =~= with_entry(list, (address, storage_keys@)));
        },
        None => {
            let ghost entry = item@;
            items.push(item);
            assert(entries_of(items@) =~= list.push(entry));
        },
    }
}

/// A builder of access lists that are free of repetition.
#[derive(Debug, PartialEq, Eq)]
pub struct SmartAccessList {
    items: Vec<AccessListItem>,
}

impl View for SmartAccessList {
    type V = Seq<Entry>;

    closed spec fn view(&self) -> Seq<Entry> {
        entries_of(self.items@)
    }
}

impl SmartAccessList {
    /// An empty builder.
    pub fn new() -> (r: Self)
        ensures
            r@ == Seq::<Entry>::empty(),
    {
        let r = SmartAccessList { items: Vec::new() };
        assert(r@ =~= Seq::<Entry>::empty());
        r
    }

    /// A builder with entries taken as they are.
    pub fn from_items(items: Vec<AccessListItem>) -> (r: Self)
        ensures
            r@ == entries_of(items@),
    {
        SmartAccessList { items }
    }

    /// Adds an address, unless it has an entry.
    pub fn add_address(&mut self, address: Address)
        ensures
            final(self)@ == with_address(old(self)@, address),
    {
        let ghost list = self@;
        if find_entry(&self.items, address).is_none() {
            self.items.push(AccessListItem { address, storage_keys: Vec::new() });
            assert(self@ =~= list.push((address, Seq::empty())));
        }
    }

    /// Adds a storage key to the first entry of its address, unless it is
    /// there already.
    pub fn add_storage_key(&mut self, address: Address, storage_key: B256)
        ensures
            final(self)@ == with_entry(old(self)@, (address, seq![storage_key])),
    {
        let mut keys: Vec<B256> = Vec::new();
        keys.push(storage_key);
        assert(keys@ =~= seq![storage_key]);
        merge_item(&mut self.items, AccessListItem { address, storage_keys: keys });
    }

    /// The access list, unless it is empty.
    pub fn into_access_list_always(self) -> (r: Option<AccessList>)
        ensures
            match r {
                Some(list) => self@.len() > 0 && list@ == self@,
                None => self@.len() == 0,
            },
    {
        if self.items.len() == 0 {
            return None;
        }
        Some(AccessList { items: self.items })
    }

    /// The access list, where it pays off on Arbitrum at these prices. Without
    /// entries, or where a price is zero, there is none.
    pub fn into_access_list_if_profitable(
        self,
        l2_gas_price: U256,
        l1_base_fee: U256,
    ) -> (r: Option<AccessList>)
        requires
            entry_total(self@) <= u64::MAX,
            data_gas(access_list_rlp(self@)) <= u64::MAX,
        ensures
            match r {
                Some(list) => arbitrum_profitable(self@, l2_gas_price@, l1_base_fee@) && list@
                    == self@,
                None => !arbitrum_profitable(self@, l2_gas_price@, l1_base_fee@),
            },
    {
        access_list_if_profitable(AccessList { items: self.items }, l2_gas_price, l1_base_fee)
    }

    /// The access list, where it pays off on Arbitrum at these prices. Where its
    /// size cannot be counted, the list comes back as an error.
    pub fn try_into_access_list_if_profitable(
        self,
        l2_gas_price: U256,
        l1_base_fee: U256,
    ) -> (r: Result<Option<AccessList>, AccessList>)
        ensures
            match r {
                Ok(Some(list)) => arbitrum_profitable(self@, l2_gas_price@, l1_base_fee@) && list@
                    == self@,
                Ok(None) => !arbitrum_profitable(self@, l2_gas_price@, l1_base_fee@),
                Err(list) => list@ == self@ && (entry_total(self@) > u64::MAX || data_gas(
                    access_list_rlp(self@),
                ) > u64::MAX),
            },
    {
        let list = AccessList { items: self.items };
        if access_list_entry_count(&list).is_none() {
            return Err(list);
        }
        let encoded = encode_access_list(&list);
        if checked_data_gas_for_bytes(encoded.as_slice()).is_none() {
            return Err(list);
        }
        let smart = SmartAccessList { items: list.items };
        Ok(smart.into_access_list_if_profitable(l2_gas_price, l1_base_fee))
    }
}

impl Default for SmartAccessList {
    fn default() -> (r: Self)
        ensures
            r@ == Seq::<Entry>::empty(),
    {
        Self::new()
    }
}

/// All entries of several lists, one list after the other.
pub open spec fn merged(lists: Seq<AccessList>) -> Seq<Entry>
    decreases lists.len(),
{
    if lists.len() == 0 {
        Seq::empty()
    } else {
        merged_into(merged(lists.drop_last()), lists.last()@)
    }
}

/// `list` with every entry of `more` merged in.
pub open spec fn merged_into(list: Seq<Entry>, more: Seq<Entry>) -> Seq<Entry>
    decreases more.len(),
{
    if more.len() == 0 {
        list
    } else {
        with_entry(merged_into(list, more.drop_last()), more.last())
    }
}

/// Merges access lists: one entry per address, with every key that some list
/// names.
pub fn merge_access_lists(lists: Vec<AccessList>) -> (r: AccessList)
    ensures
        r@ == merged(lists@),
{
    let mut items: Vec<AccessListItem> = Vec::new();
    let ghost all = lists@;
    proof {
        assert(all.take(0) =~= Seq::<AccessList>::empty());
        assert(entries_of(items@) =~= Seq::<Entry>::empty());
    }
    for list in it: lists
        invariant
            all == it.seq(),
            entries_of(items@) == merged(all.take(it.index())),
    {
        let ghost i = it.index();
        let ghost start = entries_of(items@);
        let ghost more = list@;
        let ghost given = list.items@;
        proof {
            assert(all[i] == list);
            assert(all.take(i + 1).drop_last() =~= all.take(i));
            assert(more.take(0) =~= Seq::<Entry>::empty());
        }
        for item in inner: list.items
            invariant
                given == inner.seq(),
                more == entries_of(given),
                entries_of(items@) == merged_into(start, more.take(inner.index())),
        {
            proof {
                let k = inner.index();
                assert(given[k] == item);
                assert(more.take(k + 1).drop_last() =~= more.take(k));
                assert(more[k] == item@);
            }
            merge_item(&mut items, item);
        }
        assert(more.take(more.len() as int) =~= more);
    }
    assert(all.take(all.len() as int) =~= all);
    AccessList { items }
}

/// The calldata gas of bytes: four for a zero byte, sixteen for any other.
pub open spec fn data_gas(data: Seq<u8>) -> nat
    decreases data.len(),
{
    if data.len() == 0 {
        0
    } else {
        data_gas(data.drop_last()) + if data.last() == 0 {
            4nat
        } else {
            16nat
        }
    }
}

/// The first bytes cost no more than all of them.
proof fn lemma_data_gas_monotone(data: Seq<u8>, i: int)
    requires
        0 <= i <= data.len(),
    ensures
        data_gas(data.take(i)) <= data_gas(data),
    decreases data.len() - i,
{
    if i < data.len() {
        assert(data.take(i + 1).drop_last() =~= data.take(i));
        lemma_data_gas_monotone(data, i + 1);
    } else {
        assert(data.take(i) =~= data);
    }
}

/// The calldata gas of bytes.
pub fn l1_data_gas_for_bytes(data: &[u8]) -> (r: u64)
    requires
        data_gas(data@) <= u64::MAX,
    ensures
        r == data_gas(data@),
{
    let mut gas: u64 = 0;
    let n: usize = data.len();
    let mut i: usize = 0;
    while i < n
        invariant
            i <= n == data@.len(),
            data_gas(data@) <= u64::MAX,
            gas == data_gas(data@.take(i as int)),
        decreases n - i,
    {
        proof {
            assert(data@.take(i as int + 1).drop_last() =~= data@.take(i as int));
            lemma_data_gas_monotone(data@, i as int + 1);
        }
        gas = gas + if data[i] == 0 {
            4
        } else {
            16
        };
        i = i + 1;
    }
    assert(data@.take(n as int) =~= data@);
    gas
}

/// The calldata gas of bytes, if it fits into the result.
pub fn checked_data_gas_for_bytes(data: &[u8]) -> (r: Option<u64>)
    ensures
        match r {
            Some(gas) => gas == data_gas(data@),
            None => data_gas(data@) > u64::MAX,
        },
{
    let mut gas: u64 = 0;
    let n: usize = data.len();
    let mut i: usize = 0;
    while i < n
        invariant
            i <= n == data@.len(),
            gas == data_gas(data@.take(i as int)),
        decreases n - i,
    {
        let cost: u64 = if data[i] == 0 {
            4
        } else {
            16
        };
        proof {
            assert(data@.take(i as int + 1).drop_last() =~= data@.take(i as int));
            lemma_data_gas_monotone(data@, i as int + 1);
        }
        match gas.checked_add(cost) {
            Some(sum) => {
                gas = sum;
            },
            None => {
                return None;
            },
        }
        i = i + 1;
    }
    assert(data@.take(n as int) =~= data@);
    Some(gas)
}

/// The calldata gas of an access list's encoding.
pub fn access_list_rlp_data_gas(access_list: &AccessList) -> (r: u64)
    requires
        data_gas(access_list_rlp(access_list@)) <= u64::MAX,
    ensures
        r == data_gas(access_list_rlp(access_list@)),
{
    let encoded = encode_access_list(access_list);
    l1_data_gas_for_bytes(encoded.as_slice())
}

/// The number of addresses and keys of all entries together.
pub open spec fn entry_total(list: Seq<Entry>) -> nat
    decreases list.len(),
{
    if list.len() == 0 {
        0
    } else {
        entry_total(list.drop_last()) + 1 + list.last().1.len()
    }
}

/// The first entries count no more than all of them.
proof fn lemma_entry_total_monotone(list: Seq<Entry>, i: int)
    requires
        0 <= i <= list.len(),
    ensures
        entry_total(list.take(i)) <= entry_total(list),
    decreases list.len() - i,
{
    if i < list.len() {
        assert(list.take(i + 1).drop_last() =~= list.take(i));
        lemma_entry_total_monotone(list, i + 1);
    } else {
        assert(list.take(i) =~= list);
    }
}

/// The number of addresses and keys of an access list, if it fits into the
/// result.
pub fn access_list_entry_count(access_list: &AccessList) -> (r: Option<u64>)
    ensures
        match r {
            Some(count) => count == entry_total(access_list@),
            None => entry_total(access_list@) > u64::MAX,
        },
{
    let mut total: u64 = 0;
    let items = &access_list.items;
    let ghost list = access_list@;
    let n: usize = items.len();
    let mut i: usize = 0;
    while i < n
        invariant
            i <= n == items@.len(),
            list == entries_of(items@),
            list == access_list@,
            total == entry_total(list.take(i as int)),
        decreases n - i,
    {
        let keys: u64 = items[i].storage_keys.len() as u64;
        proof {
            assert(list.take(i as int + 1).drop_last() =~= list.take(i as int));
            assert(list[i as int] == items@[i as int]@);
            lemma_entry_total_monotone(list, i as int + 1);
        }
        match total.checked_add(keys) {
            Some(sum) => match sum.checked_add(1) {
                Some(next) => {
                    total = next;
                },
                None => {
                    return None;
                },
            },
            None => {
                return None;
            },
        }
        i = i + 1;
    }
    assert(list.take(n as int) =~= list);
    Some(total)
}

/// The wei that an access list saves: 100 gas per address and key, modulo the
/// word size.
pub open spec fn execution_savings(list: Seq<Entry>, l2_gas_price: nat) -> nat {
    ((entry_total(list) * 100) % pow_256() * l2_gas_price) % pow_256()
}

/// Whether so many addresses and keys pay off on Arbitrum, where their encoding
/// takes so much data gas: both prices are known, and posting the encoding costs
/// less than what the list saves.
pub open spec fn outweighs_posting(
    entries: nat,
    posted_gas: nat,
    l2_gas_price: nat,
    l1_base_fee: nat,
) -> bool {
    &&& l2_gas_price != 0
    &&& l1_base_fee != 0
    &&& ((entries * 100) % pow_256() * l2_gas_price) % pow_256() > (posted_gas * l1_base_fee)
        % pow_256()
}

/// Whether an access list pays off on Arbitrum: there are entries, and they
/// outweigh what posting their encoding costs.
pub open spec fn arbitrum_profitable(
    list: Seq<Entry>,
    l2_gas_price: nat,
    l1_base_fee: nat,
) -> bool {
    &&& list.len() > 0
    &&& outweighs_posting(
        entry_total(list),
        data_gas(access_list_rlp(list)),
        l2_gas_price,
        l1_base_fee,
    )
}

/// Whether an access list pays off on an OP Stack chain: it saves more than
/// what it adds to the transaction's data fee.
pub open spec fn op_stack_profitable(
    list: Seq<Entry>,
    l2_gas_price: nat,
    l1_fee_without: nat,
    l1_fee_with: nat,
) -> bool {
    execution_savings(list, l2_gas_price) > if l1_fee_with >= l1_fee_without {
        (l1_fee_with - l1_fee_without) as nat
    } else {
        0
    }
}

/// The wei that `entries` addresses and keys save at a gas price.
fn savings(entries: u64, l2_gas_price: U256) -> (r: U256)
    ensures
        r@ == ((entries as nat * 100) % pow_256() * l2_gas_price@) % pow_256(),
{
    wrapping_product(
        wrapping_product(U256::from_u64(entries), U256::from_u64(100)),
        l2_gas_price,
    )
}

/// Whether so many addresses and keys pay off on Arbitrum, where their encoding
/// takes so much data gas.
pub fn pays_for_posting(
    entries: u64,
    posted_gas: u64,
    l2_gas_price: U256,
    l1_base_fee: U256,
) -> (r: bool)
    ensures
        r == outweighs_posting(
            entries as nat,
            posted_gas as nat,
            l2_gas_price@,
            l1_base_fee@,
        ),
{
    if l2_gas_price.is_zero() || l1_base_fee.is_zero() {
        return false;
    }
    let saved: U256 = savings(entries, l2_gas_price);
    let cost: U256 = wrapping_product(U256::from_u64(posted_gas), l1_base_fee);
    cost.precedes(&saved)
}

/// The access list, where it pays off on Arbitrum at these prices.
pub fn access_list_if_profitable(
    access_list: AccessList,
    l2_gas_price: U256,
    l1_base_fee: U256,
) -> (r: Option<AccessList>)
    requires
        entry_total(access_list@) <= u64::MAX,
        data_gas(access_list_rlp(access_list@)) <= u64::MAX,
    ensures
        match r {
            Some(list) => arbitrum_profitable(access_list@, l2_gas_price@, l1_base_fee@) && list
                == access_list,
            None => !arbitrum_profitable(access_list@, l2_gas_price@, l1_base_fee@),
        },
{
    if access_list.items.len() == 0 {
        return None;
    }
    let entries: u64 = match access_list_entry_count(&access_list) {
        Some(count) => count,
        None => {
            return None;
        },
    };
    let posted: u64 = access_list_rlp_data_gas(&access_list);
    if pays_for_posting(entries, posted, l2_gas_price, l1_base_fee) {
        Some(access_list)
    } else {
        None
    }
}

/// Pricing inputs of an access list.
#[derive(Debug, PartialEq, Eq)]
pub enum AccessListPricing {
    /// No data fee.
    L1,
    /// Arbitrum prices.
    Arbitrum {
        /// The price of execution gas.
        l2_gas_price: U256,
        /// The base fee of the data layer.
        l1_base_fee: U256,
    },
    /// OP Stack data fees of the whole transaction.
    OpStack {
        /// The price of execution gas.
        l2_gas_price: U256,
        /// The data fee without the access list.
        l1_fee_without: U256,
        /// The data fee with the access list.
        l1_fee_with: U256,
    },
}

/// The fee model of a chain.
#[derive(Clone, Copy, Debug, PartialEq, Eq, Structural)]
pub enum ChainType {
    /// No data fee.
    L1,
    /// Arbitrum.
    Arbitrum,
    /// OP Stack.
    OpStack,
}

/// Which oracle tells the base fee of the data layer, if one does.
pub fn l1_base_fee_oracle(chain_type: ChainType) -> (r: Option<Address>)
    ensures
        match chain_type {
            ChainType::L1 => r is None,
            ChainType::Arbitrum => r matches Some(a) && a@ == 0x6c,
            ChainType::OpStack => r == Some(Address { hi: 0x42000000, lo: 0x0f }),
        },
{
    match chain_type {
        ChainType::L1 => None,
        ChainType::Arbitrum => Some(arb_gas_info()),
        ChainType::OpStack => Some(op_gas_price_oracle()),
    }
}

/// Whether an access list is worth sending at these prices.
pub open spec fn worth_sending(list: Seq<Entry>, pricing: AccessListPricing) -> bool {
    list.len() > 0 && match pricing {
        AccessListPricing::L1 => true,
        AccessListPricing::Arbitrum { l2_gas_price, l1_base_fee } => arbitrum_profitable(
            list,
            l2_gas_price@,
            l1_base_fee@,
        ),
        AccessListPricing::OpStack { l2_gas_price, l1_fee_without, l1_fee_with } =>
            op_stack_profitable(list, l2_gas_price@, l1_fee_without@, l1_fee_with@),
    }
}

/// Keeps the access list where it is worth sending.
pub fn resolve_access_list(
    sim_access_list: AccessList,
    pricing: &AccessListPricing,
) -> (r: Option<AccessList>)
    requires
        entry_total(sim_access_list@) <= u64::MAX,
        data_gas(access_list_rlp(sim_access_list@)) <= u64::MAX,
    ensures
        match r {
            Some(list) => worth_sending(sim_access_list@, *pricing) && list == sim_access_list,
            None => !worth_sending(sim_access_list@, *pricing),
        },
{
    if sim_access_list.items.len() == 0 {
        return None;
    }
    match pricing {
        AccessListPricing::L1 => Some(sim_access_list),
        AccessListPricing::Arbitrum { l2_gas_price, l1_base_fee } => access_list_if_profitable(
            sim_access_list,
            *l2_gas_price,
            *l1_base_fee,
        ),
        AccessListPricing::OpStack { l2_gas_price, l1_fee_without, l1_fee_with } => {
            let entries: u64 = match access_list_entry_count(&sim_access_list) {
                Some(count) => count,
                None => {
                    return None;
                },
            };
            let added: U256 = l1_fee_with.saturating_sub(*l1_fee_without);
            if added.precedes(&savings(entries, *l2_gas_price)) {
                Some(sim_access_list)
            } else {
                None
            }
        },
    }
}

/// Keeps the access list where it is worth sending. Where its size cannot be
/// counted, the list comes back as an error.
pub fn try_resolve_access_list(
    sim_access_list: AccessList,
    pricing: &AccessListPricing,
) -> (r: Result<Option<AccessList>, AccessList>)
    ensures
        match r {
            Ok(Some(list)) => worth_sending(sim_access_list@, *pricing) && list
                == sim_access_list,
            Ok(None) => !worth_sending(sim_access_list@, *pricing),
            Err(list) => list == sim_access_list && (entry_total(sim_access_list@) > u64::MAX
                || data_gas(access_list_rlp(sim_access_list@)) > u64::MAX),
        },
{
    if access_list_entry_count(&sim_access_list).is_none() {
        return Err(sim_access_list);
    }
    let encoded = encode_access_list(&sim_access_list);
    if checked_data_gas_for_bytes(encoded.as_slice()).is_none() {
        return Err(sim_access_list);
    }
    Ok(resolve_access_list(sim_access_list, pricing))
}

/// The parts of a transaction that an access list concerns.
#[derive(Debug, PartialEq, Eq)]
pub struct TransactionDraft {
    /// The destination, unless the transaction creates a contract.
    pub to: Option<Address>,
    /// The access list, if one is set.
    pub access_list: Option<AccessList>,
}

/// Whether an entry is worth its place: its account is not warm anyway, and
/// the caller did not exclude it.
pub open spec fn kept(
    entry: Entry,
    to: Option<Address>,
    sender: Address,
    exclude: Seq<Address>,
) -> bool {
    to != Some(entry.0) && entry.0 != sender && !exclude.contains(entry.0)
}

/// A copy of an access list.
pub fn copy_access_list(list: &AccessList) -> (r: AccessList)
    ensures
        r@ == list@,
{
    let mut items: Vec<AccessListItem> = Vec::new();
    let n: usize = list.items.len();
    let mut i: usize = 0;
    while i < n
        invariant
            i <= n == list.items@.len(),
            entries_of(items@) == list@.take(i as int),
        decreases n - i,
    {
        let ghost before = entries_of(items@);
        let item = &list.items[i];
        let copy = AccessListItem {
            address: item.address,
            storage_keys: copy_keys(&item.storage_keys),
        };
        items.push(copy);
        assert(entries_of(items@) =~= before.push(copy@));
        assert(entries_of(items@) =~= list@.take(i as int + 1));
        i = i + 1;
    }
    assert(list@.take(n as int) =~= list@);
    AccessList { items }
}

/// A copy of storage keys.
fn copy_keys(keys: &Vec<B256>) -> (r: Vec<B256>)
    ensures
        r@ == keys@,
{
    let mut r: Vec<B256> = Vec::new();
    let n: usize = keys.len();
    let mut i: usize = 0;
    while i < n
        invariant
            i <= n == keys@.len(),
            r@ == keys@.take(i as int),
        decreases n - i,
    {
        r.push(keys[i]);
        assert(r@ =~= keys@.take(i as int + 1));
        i = i + 1;
    }
    assert(r@ =~= keys@);
    r
}

/// Filtering one more entry keeps it or drops it.
proof fn lemma_entry_filter_push(list: Seq<Entry>, entry: Entry, pred: spec_fn(Entry) -> bool)
    ensures
        list.push(entry).filter(pred) == if pred(entry) {
            list.filter(pred).push(entry)
        } else {
            list.filter(pred)
        },
{
    reveal(Seq::filter);
    assert(list.push(entry).drop_last() =~= list);
}

/// Drops the entries that are warm anyway or excluded, then sets what is left
/// as the transaction's access list. An empty list leaves the transaction as
/// it is.
pub fn apply_access_list(
    tx: &mut TransactionDraft,
    access_list: &mut AccessList,
    sender: Address,
    exclude: &[Address],
)
    ensures
        final(access_list)@ == old(access_list)@.filter(
            |e: Entry| kept(e, old(tx).to, sender, exclude@),
        ),
        final(tx).to == old(tx).to,
        if final(access_list)@.len() == 0 {
            final(tx).access_list == old(tx).access_list
        } else {
            final(tx).access_list matches Some(list) && list@ == final(access_list)@
        },
{
    let to: Option<Address> = tx.to;
    let mut old_items: Vec<AccessListItem> = Vec::new();
    std::mem::swap(&mut old_items, &mut access_list.items);
    let ghost list = entries_of(old_items@);
    let ghost pred = |e: Entry| kept(e, to, sender, exclude@);
    let mut items: Vec<AccessListItem> = Vec::new();
    let ghost given = old_items@;
    proof {
        reveal(Seq::filter);
        assert(list.take(0) =~= Seq::<Entry>::empty());
        assert(entries_of(items@) =~= list.take(0).filter(pred));
    }
    for item in it: old_items
        invariant
            given == it.seq(),
            list == entries_of(given),
            pred == (|e: Entry| kept(e, to, sender, exclude@)),
            entries_of(items@) == list.take(it.index()).filter(pred),
    {
        let ghost i = it.index();
        let ghost entry = item@;
        proof {
            assert(given[i] == item);
            assert(list[i] == entry);
            assert(list.take(i + 1) =~= list.take(i).push(entry));
            lemma_entry_filter_push(list.take(i), entry, pred);
        }
        let warm: bool = match to {
            Some(target) => item.address == target,
            None => false,
        };
        let drop: bool = warm || item.address == sender || is_excluded(item.address, exclude);
        let ghost before = entries_of(items@);
        if !drop {
            items.push(item);
            assert(entries_of(items@) =~= before.push(entry));
        }
    }
    assert(list.take(list.len() as int) =~= list);
    access_list.items = items;
    if access_list.items.len() > 0 {
        tx.access_list = Some(copy_access_list(access_list));
    }
}

/// Whether `address` is among the excluded ones.
fn is_excluded(address: Address, exclude: &[Address]) -> (r: bool)
    ensures
        r == exclude@.contains(address),
{
    let n: usize = exclude.len();
    let mut i: usize = 0;
    while i < n
        invariant
            i <= n == exclude@.len(),
            forall|j: int| 0 <= j < i ==> exclude@[j] != address,
        decreases n - i,
    {
        if exclude[i] == address {
            assert(exclude@.contains(address));
            return true;
        }
        i = i + 1;
    }
    false
}

/// The selector of `getL1Fee(bytes)`.
pub open spec fn get_l1_fee_selector() -> Seq<u8> {
    seq![0x49, 0x94, 0x8e, 0x0e]
}

/// The calldata that asks the OP Stack oracle for the data fee of `tx_data`.
pub fn op_l1_fee_calldata(tx_data: &[u8]) -> (r: Bytes)
    ensures
        r@ == get_l1_fee_selector() + bytes_argument(tx_data@),
{
    let mut data: Vec<u8> = Vec::new();
    data.push(0x49);
    data.push(0x94);
    data.push(0x8e);
    data.push(0x0e);
    let mut argument: Vec<u8> = encode_bytes_argument(tx_data);
    data.append(&mut argument);
    assert(data@ =~= get_l1_fee_selector() + bytes_argument(tx_data@));
    Bytes::from_vec(data)
}

/// The data fee that an answer from outside the simulation spells: all of it as
/// one number, most significant byte first, an empty answer being zero. There is
/// none where the number needs more than a word.
pub fn op_l1_fee_reply(data: &[u8]) -> (r: Option<U256>)
    ensures
        match r {
            Some(fee) => fee@ == be_value(data@),
            None => be_value(data@) >= pow_256(),
        },
{
    let n: usize = data.len();
    let head: usize = if n > 32 {
        n - 32
    } else {
        0
    };
    let ghost start = data@.take(head as int);
    let ghost end = data@.skip(head as int);
    proof {
        assert(start + end =~= data@);
        lemma_be_value_concat(start, end);
        lemma_byte_base_values();
        assert(start.take(0) =~= Seq::<u8>::empty());
    }
    let mut i: usize = 0;
    while i < head
        invariant
            i <= head <= n == data@.len(),
            start == data@.take(head as int),
            end == data@.skip(head as int),
            head > 0 ==> end.len() == 32,
            byte_base(32) == pow_256(),
            be_value(start.take(i as int)) == 0,
            be_value(data@) == be_value(start) * byte_base(end.len()) + be_value(end),
        decreases head - i,
    {
        let ghost part = start.take(i as int + 1);
        proof {
            assert(part.drop_last() =~= start.take(i as int));
            assert(part.last() == data@[i as int]);
        }
        if data[i] != 0 {
            proof {
                let rest = start.skip(i as int + 1);
                assert(part + rest =~= start);
                lemma_be_value_concat(part, rest);
                lemma_byte_base_monotone(0, rest.len());
                let high = be_value(part);
                let base = byte_base(rest.len());
                assert(high * base >= 1) by (nonlinear_arith)
                    requires
                        high >= 1,
                        base >= 1,
                ;
                let whole = be_value(start);
                assert(whole * pow_256() >= pow_256()) by (nonlinear_arith)
                    requires
                        whole >= 1,
                ;
            }
            return None;
        }
        i = i + 1;
    }
    assert(start.take(head as int) =~= start);
    let mut word: Vec<u8> = Vec::new();
    let tail: usize = n - head;
    let mut k: usize = 0;
    while k < 32 - tail
        invariant
            k <= 32 - tail,
            tail <= 32,
            word@.len() == k,
            be_value(word@) == 0,
        decreases 32 - tail - k,
    {
        let ghost before = word@;
        word.push(0);
        assert(word@.drop_last() =~= before);
        k = k + 1;
    }
    let ghost pad = word@;
    let mut j: usize = head;
    while j < n
        invariant
            head <= j <= n == data@.len(),
            end == data@.skip(head as int),
            word@ == pad + end.take(j - head),
        decreases n - j,
    {
        word.push(data[j]);
        assert(end.take(j + 1 - head) =~= end.take(j - head).push(data@[j as int]));
        assert(word@ =~= pad + end.take(j + 1 - head));
        j = j + 1;
    }
    proof {
        assert(end.take(n - head) =~= end);
        lemma_be_value_concat(pad, end);
        assert(word@.subrange(0, 32) =~= word@);
    }
    Some(U256::from_be_slice(word.as_slice(), 0))
}

/// The data fee that the oracle's answer tells: what it returned, or zero where
/// the call failed or returned something else.
pub fn compute_op_l1_fee(answer: Option<&[u8]>) -> (r: U256)
    ensures
        r@ == match answer {
            Some(data) => match uint256_result(data@) {
                Some(fee) => fee,
                None => 0,
            },
            None => 0,
        },
{
    match answer {
        Some(data) => match decode_uint256(data) {
            Ok(fee) => fee,
            Err(_) => U256::zero(),
        },
        None => U256::zero(),
    }
}

/// Whether no address has two entries.
pub open spec fn distinct_entries(list: Seq<Entry>) -> bool {
    forall|i: int, j: int|
        0 <= i < j < list.len() ==> (#[trigger] list[i]).0 != (#[trigger] list[j]).0
}

/// Whether some entry of `address` names `key`.
pub open spec fn mentions(list: Seq<Entry>, address: Address, key: B256) -> bool {
    exists|i: int|
        0 <= i < list.len() && (#[trigger] list[i]).0 == address && list[i].1.contains(key)
}

/// Whether some entry is of `address`.
pub open spec fn names(list: Seq<Entry>, address: Address) -> bool {
    exists|i: int| 0 <= i < list.len() && (#[trigger] list[i]).0 == address
}

/// There is a first entry wherever there is one.
proof fn lemma_names_has_first(list: Seq<Entry>, address: Address)
    ensures
        names(list, address) <==> has_entry(list, address),
    decreases list.len(),
{
    if names(list, address) {
        let i = choose|i: int| 0 <= i < list.len() && (#[trigger] list[i]).0 == address;
        lemma_first_upto(list, address, i);
    }
    if has_entry(list, address) {
        let i = first_entry(list, address);
        assert(list[i].0 == address);
    }
}

/// The first entry of an address comes no later than any of its entries.
proof fn lemma_first_upto(list: Seq<Entry>, address: Address, i: int)
    requires
        0 <= i < list.len(),
        list[i].0 == address,
    ensures
        has_entry(list, address),
    decreases i,
{
    if forall|j: int| 0 <= j < i ==> (#[trigger] list[j]).0 != address {
        assert(is_first(list, address, i));
    } else {
        let j = choose|j: int| 0 <= j < i && (#[trigger] list[j]).0 == address;
        lemma_first_upto(list, address, j);
    }
}

/// Adding keys keeps the keys that were there and adds those that are new.
proof fn lemma_all_unique_contains(keys: Seq<B256>, more: Seq<B256>, key: B256)
    ensures
        with_all_unique(keys, more).contains(key) <==> keys.contains(key) || more.contains(key),
    decreases more.len(),
{
    if more.len() > 0 {
        let less = more.drop_last();
        let last = more.last();
        lemma_all_unique_contains(keys, less, key);
        let part = with_all_unique(keys, less);
        if less.contains(key) {
            let i = less.index_of(key);
            assert(more[i] == key);
        }
        if key == last {
            assert(more[more.len() - 1] == key);
        }
        if more.contains(key) {
            let i = more.index_of(key);
            if i < less.len() {
                assert(less[i] == key);
            }
        }
        if !part.contains(last) {
            let full = part.push(last);
            if part.contains(key) {
                let i = part.index_of(key);
                assert(full[i] == key);
            }
            assert(full[part.len() as int] == last);
            if full.contains(key) {
                let i = full.index_of(key);
                if i < part.len() {
                    assert(part[i] == key);
                }
            }
        }
    }
}

/// Merging an entry keeps entries distinct, and names and mentions exactly what
/// the list and the entry did.
pub proof fn law_merging_one_entry(list: Seq<Entry>, entry: Entry, address: Address, key: B256)
    requires
        distinct_entries(list),
    ensures
        distinct_entries(with_entry(list, entry)),
        names(with_entry(list, entry), address) <==> names(list, address) || entry.0 == address,
        mentions(with_entry(list, entry), address, key) <==> mentions(list, address, key) || (
        entry.0 == address && entry.1.contains(key)),
{
    let more = with_entry(list, entry);
    lemma_names_has_first(list, entry.0);
    if has_entry(list, entry.0) {
        let f = first_entry(list, entry.0);
        assert(is_first(list, entry.0, f));
        assert forall|i: int| 0 <= i < list.len() implies (#[trigger] more[i]).0 == list[i].0 by {}
        lemma_all_unique_contains(list[f].1, entry.1, key);
        if names(list, address) {
            let i = choose|i: int| 0 <= i < list.len() && (#[trigger] list[i]).0 == address;
            assert(more[i].0 == address);
        }
        if names(more, address) {
            let i = choose|i: int| 0 <= i < more.len() && (#[trigger] more[i]).0 == address;
            assert(list[i].0 == address);
        }
        assert(more[f].0 == entry.0);
        if mentions(list, address, key) {
            let i = choose|i: int|
                0 <= i < list.len() && (#[trigger] list[i]).0 == address && list[i].1.contains(
                    key,
                );
            assert(more[i].0 == address && more[i].1.contains(key));
        }
        if entry.0 == address && entry.1.contains(key) {
            assert(more[f].0 == address && more[f].1.contains(key));
        }
        if mentions(more, address, key) {
            let i = choose|i: int|
                0 <= i < more.len() && (#[trigger] more[i]).0 == address && more[i].1.contains(
                    key,
                );
            assert(list[i].0 == address);
            if i == f && !entry.1.contains(key) {
                assert(list[f].1.contains(key));
            }
        }
    } else {
        let n = list.len() as int;
        assert(more[n] == entry);
        assert forall|i: int| 0 <= i < n implies (#[trigger] more[i]) == list[i] by {}
        assert forall|i: int, j: int| 0 <= i < j < more.len() implies (#[trigger] more[i]).0 != (
        #[trigger] more[j]).0 by {
            if j == n {
                assert(list[i].0 != entry.0);
            } else {
                assert(list[i].0 != list[j].0);
            }
        }
        if names(list, address) {
            let i = choose|i: int| 0 <= i < list.len() && (#[trigger] list[i]).0 == address;
            assert(more[i].0 == address);
        }
        if mentions(list, address, key) {
            let i = choose|i: int|
                0 <= i < list.len() && (#[trigger] list[i]).0 == address && list[i].1.contains(
                    key,
                );
            assert(more[i].0 == address && more[i].1.contains(key));
        }
    }
}

/// Whether some list names `address`.
pub open spec fn any_names(lists: Seq<AccessList>, address: Address) -> bool {
    exists|i: int| 0 <= i < lists.len() && names((#[trigger] lists[i])@, address)
}

/// Whether some list mentions `key` at `address`.
pub open spec fn any_mentions(lists: Seq<AccessList>, address: Address, key: B256) -> bool {
    exists|i: int| 0 <= i < lists.len() && mentions((#[trigger] lists[i])@, address, key)
}

/// Merging a list keeps entries distinct, and names and mentions exactly what
/// both did.
proof fn lemma_merging_one_list(list: Seq<Entry>, more: Seq<Entry>, address: Address, key: B256)
    requires
        distinct_entries(list),
    ensures
        distinct_entries(merged_into(list, more)),
        names(merged_into(list, more), address) <==> names(list, address) || names(more, address),
        mentions(merged_into(list, more), address, key) <==> mentions(list, address, key)
            || mentions(more, address, key),
    decreases more.len(),
{
    if more.len() > 0 {
        let less = more.drop_last();
        let last = more.last();
        lemma_merging_one_list(list, less, address, key);
        law_merging_one_entry(merged_into(list, less), last, address, key);
        if names(less, address) {
            let i = choose|i: int| 0 <= i < less.len() && (#[trigger] less[i]).0 == address;
            assert(more[i].0 == address);
        }
        if last.0 == address {
            assert(more[more.len() - 1].0 == address);
        }
        if names(more, address) {
            let i = choose|i: int| 0 <= i < more.len() && (#[trigger] more[i]).0 == address;
            if i < less.len() {
                assert(less[i].0 == address);
            }
        }
        if mentions(less, address, key) {
            let i = choose|i: int|
                0 <= i < less.len() && (#[trigger] less[i]).0 == address && less[i].1.contains(
                    key,
                );
            assert(more[i].0 == address && more[i].1.contains(key));
        }
        if last.0 == address && last.1.contains(key) {
            assert(more[more.len() - 1].0 == address && more[more.len() - 1].1.contains(key));
        }
        if mentions(more, address, key) {
            let i = choose|i: int|
                0 <= i < more.len() && (#[trigger] more[i]).0 == address && more[i].1.contains(
                    key,
                );
            if i < less.len() {
                assert(less[i].0 == address && less[i].1.contains(key));
            }
        }
    }
}

/// A merged access list has one entry per address, and names and mentions
/// exactly what some of the lists did.
pub proof fn law_merged_lists(lists: Seq<AccessList>, address: Address, key: B256)
    ensures
        distinct_entries(merged(lists)),
        names(merged(lists), address) <==> any_names(lists, address),
        mentions(merged(lists), address, key) <==> any_mentions(lists, address, key),
    decreases lists.len(),
{
    if lists.len() > 0 {
        let less = lists.drop_last();
        let last = lists.last();
        law_merged_lists(less, address, key);
        lemma_merging_one_list(merged(less), last@, address, key);
        if any_names(less, address) {
            let i = choose|i: int| 0 <= i < less.len() && names((#[trigger] less[i])@, address);
            assert(lists[i] == less[i]);
        }
        if any_mentions(less, address, key) {
            let i = choose|i: int|
                0 <= i < less.len() && mentions((#[trigger] less[i])@, address, key);
            assert(lists[i] == less[i]);
        }
        assert(lists[lists.len() - 1] == last);
        if any_names(lists, address) {
            let i = choose|i: int| 0 <= i < lists.len() && names((#[trigger] lists[i])@, address);
            if i < less.len() {
                assert(less[i] == lists[i]);
            }
        }
        if any_mentions(lists, address, key) {
            let i = choose|i: int|
                0 <= i < lists.len() && mentions((#[trigger] lists[i])@, address, key);
            if i < less.len() {
                assert(less[i] == lists[i]);
            }
        }
    }
}

/// A call on a builder.
pub enum BuilderCall {
    /// An address is added.
    Address(Address),
    /// A storage key of an address is added.
    Key(Address, B256),
}

impl BuilderCall {
    /// The address that is named.
    pub open spec fn address(self) -> Address {
        match self {
            BuilderCall::Address(address) => address,
            BuilderCall::Key(address, _) => address,
        }
    }
}

/// What an empty builder holds after calls.
pub open spec fn built(calls: Seq<BuilderCall>) -> Seq<Entry>
    decreases calls.len(),
{
    if calls.len() == 0 {
        Seq::empty()
    } else {
        let before = built(calls.drop_last());
        match calls.last() {
            BuilderCall::Address(address) => with_address(before, address),
            BuilderCall::Key(address, key) => with_entry(before, (address, seq![key])),
        }
    }
}

/// The addresses that calls name, each where it is named first.
pub open spec fn called_addresses(calls: Seq<BuilderCall>) -> Seq<Address>
    decreases calls.len(),
{
    if calls.len() == 0 {
        Seq::empty()
    } else {
        let before = called_addresses(calls.drop_last());
        if before.contains(calls.last().address()) {
            before
        } else {
            before.push(calls.last().address())
        }
    }
}

/// The keys of an address that calls add, each where it is added first.
pub open spec fn called_keys(calls: Seq<BuilderCall>, address: Address) -> Seq<B256>
    decreases calls.len(),
{
    if calls.len() == 0 {
        Seq::empty()
    } else {
        let before = called_keys(calls.drop_last(), address);
        match calls.last() {
            BuilderCall::Key(of, key) => if of == address {
                with_unique(before, key)
            } else {
                before
            },
            BuilderCall::Address(_) => before,
        }
    }
}

/// The addresses named are those of the calls, and no address comes twice.
proof fn lemma_called_addresses(calls: Seq<BuilderCall>, address: Address)
    ensures
        called_addresses(calls).no_duplicates(),
        called_addresses(calls).contains(address) <==> exists|i: int|
            0 <= i < calls.len() && (#[trigger] calls[i]).address() == address,
    decreases calls.len(),
{
    if calls.len() > 0 {
        let less = calls.drop_last();
        let last = calls.last().address();
        let before = called_addresses(less);
        let after = called_addresses(calls);
        lemma_called_addresses(less, address);
        if before.contains(last) {
            if last == address {
                assert(calls[calls.len() - 1].address() == address);
            }
        } else {
            assert(after[before.len() as int] == last);
            if before.contains(address) {
                let i = before.index_of(address);
                assert(after[i] == address);
            }
            if after.contains(address) && address != last {
                let i = after.index_of(address);
                assert(before[i] == address);
            }
        }
        if exists|i: int| 0 <= i < less.len() && (#[trigger] less[i]).address() == address {
            let i = choose|i: int| 0 <= i < less.len() && (#[trigger] less[i]).address() == address;
            assert(calls[i].address() == address);
        }
        if exists|i: int| 0 <= i < calls.len() && (#[trigger] calls[i]).address() == address {
            let i = choose|i: int|
                0 <= i < calls.len() && (#[trigger] calls[i]).address() == address;
            if i < less.len() {
                assert(less[i].address() == address);
            }
        }
        if calls[calls.len() - 1].address() == address {
            assert(last == address);
        }
    }
}

/// The keys of an address are those that calls add, and none comes twice.
proof fn lemma_called_keys(calls: Seq<BuilderCall>, address: Address, key: B256)
    ensures
        called_keys(calls, address).no_duplicates(),
        called_keys(calls, address).contains(key) <==> calls.contains(
            BuilderCall::Key(address, key),
        ),
    decreases calls.len(),
{
    if calls.len() > 0 {
        let less = calls.drop_last();
        let last = calls.last();
        let want = BuilderCall::Key(address, key);
        lemma_called_keys(less, address, key);
        let before = called_keys(less, address);
        let after = called_keys(calls, address);
        if less.contains(want) {
            let i = less.index_of(want);
            assert(calls[i] == want);
        }
        if calls.contains(want) {
            let i = calls.index_of(want);
            if i < less.len() {
                assert(less[i] == want);
            }
        }
        if last == want {
            assert(calls[calls.len() - 1] == want);
        }
        if after != before {
            let added = after.last();
            assert(after == before.push(added));
            assert(after[before.len() as int] == added);
            if before.contains(key) {
                let i = before.index_of(key);
                assert(after[i] == key);
            }
            if after.contains(key) && key != added {
                let i = after.index_of(key);
                assert(before[i] == key);
            }
        }
    }
}

/// No key is added of an address that no call names.
proof fn lemma_unnamed_has_no_keys(calls: Seq<BuilderCall>, address: Address)
    requires
        !called_addresses(calls).contains(address),
    ensures
        called_keys(calls, address) == Seq::<B256>::empty(),
    decreases calls.len(),
{
    if calls.len() > 0 {
        let less = calls.drop_last();
        let before = called_addresses(less);
        let after = called_addresses(calls);
        if before.contains(address) {
            let i = before.index_of(address);
            assert(after[i] == address);
        }
        if calls.last().address() == address && !before.contains(address) {
            assert(after[before.len() as int] == address);
        }
        lemma_unnamed_has_no_keys(less, address);
    }
}

/// A builder holds the addresses named with the keys added.
proof fn lemma_built(calls: Seq<BuilderCall>)
    ensures
        built(calls) == called_addresses(calls).map_values(
            |address: Address| (address, called_keys(calls, address)),
        ),
    decreases calls.len(),
{
    let after = called_addresses(calls);
    let target = after.map_values(|address: Address| (address, called_keys(calls, address)));
    if calls.len() == 0 {
        assert(built(calls) =~= target);
    } else {
        let less = calls.drop_last();
        let last = calls.last();
        let address = last.address();
        lemma_built(less);
        lemma_called_addresses(less, address);
        let list = built(less);
        let before = called_addresses(less);
        assert forall|i: int| 0 <= i < list.len() implies (#[trigger] list[i]).0 == before[i] by {}
        if before.contains(address) {
            let i = before.index_of(address);
            assert(list[i].0 == address);
            lemma_first_upto(list, address, i);
            let f = first_entry(list, address);
            assert(is_first(list, address, f));
            assert(before[f] == address);
            assert forall|j: int| 0 <= j < before.len() && j != f implies before[j] != address by {}
            match last {
                BuilderCall::Address(_) => {
                    assert(built(calls) =~= target);
                },
                BuilderCall::Key(_, key) => {
                    reveal_with_fuel(with_all_unique, 2);
                    assert(seq![key].drop_last() =~= Seq::empty());
                    assert(with_all_unique(list[f].1, seq![key]) == with_unique(list[f].1, key));
                    assert forall|j: int| 0 <= j < target.len() implies #[trigger] built(calls)[j]
                        == target[j] by {
                        assert(after[j] == before[j]);
                    }
                    assert(built(calls) =~= target);
                },
            }
        } else {
            lemma_unnamed_has_no_keys(less, address);
            if has_entry(list, address) {
                let f = first_entry(list, address);
                assert(before[f] == address);
            }
            assert forall|j: int| 0 <= j < before.len() implies before[j] != address by {}
            match last {
                BuilderCall::Address(_) => {},
                BuilderCall::Key(_, key) => {
                    assert(with_unique(Seq::empty(), key) =~= seq![key]);
                },
            }
            assert forall|j: int| 0 <= j < target.len() implies #[trigger] built(calls)[j]
                == target[j] by {
                if j < before.len() {
                    assert(after[j] == before[j]);
                }
            }
            assert(built(calls) =~= target);
        }
    }
}

/// Whatever calls an empty builder gets, it gives a list unless there were none:
/// each address that a call names once, in the order in which they are named
/// first, with exactly the keys that are added of it, each once, in the order in
/// which they are added first.
pub proof fn law_built_lists(calls: Seq<BuilderCall>, address: Address, key: B256)
    ensures
        built(calls).len() == 0 <==> calls.len() == 0,
        built(calls) == called_addresses(calls).map_values(
            |address: Address| (address, called_keys(calls, address)),
        ),
        called_addresses(calls).no_duplicates(),
        called_addresses(calls).contains(address) <==> exists|i: int|
            0 <= i < calls.len() && (#[trigger] calls[i]).address() == address,
        called_keys(calls, address).no_duplicates(),
        called_keys(calls, address).contains(key) <==> calls.contains(
            BuilderCall::Key(address, key),
        ),
{
    lemma_built(calls);
    lemma_called_addresses(calls, address);
    lemma_called_keys(calls, address, key);
    if calls.len() > 0 {
        let named = calls[0].address();
        lemma_called_addresses(calls, named);
        assert(called_addresses(calls).contains(named));
        assert(called_addresses(calls).len() > 0);
    }
}

} // verus!
