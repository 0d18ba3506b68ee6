//! State as it is saved: accounts without code, slots, and code by itself.

use crate::bytes::Bytes;
use crate::cache::account::{AccountInfo, Bytecode, InfoModel, SlotMap};
use crate::cache::layers::{accounts_model, storage_model};
use crate::cache::payload::{
    address_in, hash_in, lemma_address_comes_back, lemma_hash_comes_back, lemma_word_comes_back,
    read_address, read_hash, read_word, word_bytes, word_in,
};
use crate::cache::versioned;
use crate::cache::versioned::{contents, frame, unframed, version_bytes};
use crate::collections::{in_order, lemma_in_order_lists, lemma_take_extend, SortedMap};
use crate::foreign::{
    account_rows, decode_state, encode_state, loadable_code, pair_rows, state_in, state_payload,
    storage_rows, AccountBytes, AccountRow, StorageBytes, StorageRow,
};
use crate::primitives::{be_bytes, Address, B256, U256};
use vstd::prelude::*;

verus! {

/// The kind of a bytecode file.
pub const BYTECODE_CACHE_MAGIC: [u8; 8] = [0x45, 0x46, 0x43, 0x42, 0x59, 0x54, 0x45, 0x00];

/// The version of a bytecode file.
pub const BYTECODE_CACHE_VERSION: u32 = 1;

/// The kind of a state file.
pub const BINARY_STATE_MAGIC: [u8; 8] = [0x45, 0x46, 0x43, 0x53, 0x54, 0x41, 0x54, 0x00];

/// The version of a state file.
pub const BINARY_STATE_VERSION: u32 = 1;

/// The code of one account.
#[derive(Debug, PartialEq, Eq)]
pub struct BytecodeCacheEntry {
    /// The code.
    pub bytecode: Bytes,
}

/// The code of accounts.
pub struct BytecodeCache {
    /// The code of each account.
    pub contracts: SortedMap<Address, BytecodeCacheEntry>,
}

impl View for BytecodeCache {
    type V = Map<Address, Seq<u8>>;

    open spec fn view(&self) -> Map<Address, Seq<u8>> {
        self.contracts@.map_values(|entry: BytecodeCacheEntry| entry.bytecode@)
    }
}

impl Default for BytecodeCache {
    fn default() -> (r: Self)
        ensures
            r@ == Map::<Address, Seq<u8>>::empty(),
    {
        let r = BytecodeCache { contracts: SortedMap::new() };
        assert(r@ =~= Map::empty());
        r
    }
}

/// The code of accounts that have any.
pub open spec fn inline_codes(accounts: Map<Address, InfoModel>) -> Map<Address, Seq<u8>> {
    Map::new(
        |address: Address| accounts.contains_key(address) && accounts[address].has_code(),
        |address: Address| accounts[address].code->0,
    )
}

impl BytecodeCache {
    /// Takes over the code of accounts that have any; the code of others stays.
    pub fn merge_from_accounts(&mut self, accounts: &SortedMap<Address, AccountInfo>)
        ensures
            final(self)@ == old(self)@.union_prefer_right(
                inline_codes(accounts_model(accounts@)),
            ),
    {
        let n: usize = accounts.len();
        let ghost model = accounts_model(accounts@);
        let ghost order = accounts.order();
        let ghost start = self@;
        let mut i: usize = 0;
        proof {
            assert(order.take(0).to_set() =~= Set::empty());
            assert(self@ =~= start.union_prefer_right(
                inline_codes(model).restrict(order.take(0).to_set()),
            ));
        }
        while i < n
            invariant
                i <= n == order.len(),
                accounts.order() == order,
                order.to_set() == accounts@.dom(),
                model == accounts_model(accounts@),
                self@ == start.union_prefer_right(
                    inline_codes(model).restrict(order.take(i as int).to_set()),
                ),
            decreases n - i,
        {
            let address: Address = accounts.key_at(i);
            let info: &AccountInfo = accounts.value_at(i);
            let ghost before = self@;
            proof {
                lemma_take_extend(order, i as int);
                assert(model[address] == info@);
            }
            if info.has_code() {
                if let Some(code) = &info.code {
                    let entry = BytecodeCacheEntry { bytecode: code.original_bytes() };
                    let ghost made = entry.bytecode@;
                    self.contracts.insert(address, entry);
                    assert(self@ =~= before.insert(address, made));
                }
            }
            proof {
                assert(self@ =~= start.union_prefer_right(
                    inline_codes(model).restrict(order.take(i + 1).to_set()),
                ));
            }
            i = i + 1;
        }
        proof {
            assert(order.take(i as int) =~= order);
            assert(inline_codes(model).restrict(order.to_set()) =~= inline_codes(model));
        }
    }

    /// The code that can be loaded, by account in order. Other code is left out.
    pub fn loadable(&self) -> (r: Vec<(Address, Bytecode)>)
        ensures
            codes_view(r@) == loadable_codes(in_order(self@.dom()), self@),
    {
        let n: usize = self.contracts.len();
        let ghost order = self.contracts.order();
        let mut list: Vec<(Address, Bytecode)> = Vec::new();
        let mut i: usize = 0;
        proof {
            assert(order.take(0) =~= Seq::empty());
            assert(codes_view(list@) =~= Seq::empty());
            assert(self@.dom() =~= self.contracts@.dom());
        }
        while i < n
            invariant
                i <= n == order.len(),
                self.contracts.order() == order,
                order == in_order(self@.dom()),
                codes_view(list@) == loadable_codes(order.take(i as int), self@),
            decreases n - i,
        {
            let address: Address = self.contracts.key_at(i);
            let entry: &BytecodeCacheEntry = self.contracts.value_at(i);
            let ghost before = codes_view(list@);
            proof {
                assert(order.take(i + 1).drop_last() =~= order.take(i as int));
                assert(self@[address] == entry.bytecode@);
            }
            if let Some(code) = Bytecode::new_raw_checked(entry.bytecode.clone()) {
                let ghost made = (address, code@);
                list.push((address, code));
                assert(codes_view(list@) =~= before.push(made));
            }
            i = i + 1;
        }
        assert(order.take(i as int) =~= order);
        list
    }
}

/// What listed code is.
pub open spec fn codes_view(list: Seq<(Address, Bytecode)>) -> Seq<(Address, Seq<u8>)> {
    list.map_values(|entry: (Address, Bytecode)| (entry.0, entry.1@))
}

/// The code of accounts that can be loaded, in the order of the accounts given.
pub open spec fn loadable_codes(addresses: Seq<Address>, codes: Map<Address, Seq<u8>>) -> Seq<
    (Address, Seq<u8>),
>
    decreases addresses.len(),
{
    if addresses.len() == 0 {
        Seq::empty()
    } else {
        let before = loadable_codes(addresses.drop_last(), codes);
        if loadable_code(codes[addresses.last()]) {
            before.push((addresses.last(), codes[addresses.last()]))
        } else {
            before
        }
    }
}

/// An account without its code.
#[derive(Clone, Copy, Debug, PartialEq, Eq, Structural)]
pub struct BinaryAccountInfo {
    /// The native balance.
    pub balance: U256,
    /// The nonce.
    pub nonce: u64,
    /// The hash of the code.
    pub code_hash: B256,
}

/// State as it is saved.
#[derive(Debug, PartialEq, Eq)]
pub struct BinaryEvmState {
    /// Accounts without code.
    pub accounts: Vec<(Address, BinaryAccountInfo)>,
    /// Slots by account.
    pub storage: Vec<(Address, Vec<(U256, U256)>)>,
}

/// What saved storage holds.
pub open spec fn saved_storage(storage: Seq<(Address, Vec<(U256, U256)>)>) -> Seq<
    (Address, Seq<(U256, U256)>),
> {
    storage.map_values(|entry: (Address, Vec<(U256, U256)>)| (entry.0, entry.1@))
}

/// What is saved of an account.
pub open spec fn bare(info: InfoModel) -> BinaryAccountInfo {
    BinaryAccountInfo { balance: info.balance, nonce: info.nonce, code_hash: info.code_hash }
}

/// An account as it comes back.
pub open spec fn codeless(info: BinaryAccountInfo) -> InfoModel {
    InfoModel { balance: info.balance, nonce: info.nonce, code_hash: info.code_hash, code: None }
}

/// Accounts as they are saved: in order.
pub open spec fn listed_accounts(accounts: Map<Address, InfoModel>) -> Seq<
    (Address, BinaryAccountInfo),
> {
    in_order(accounts.dom()).map_values(|address: Address| (address, bare(accounts[address])))
}

/// Slots as they are saved: in order.
pub open spec fn listed_pairs(slots: Map<U256, U256>) -> Seq<(U256, U256)> {
    in_order(slots.dom()).map_values(|slot: U256| (slot, slots[slot]))
}

/// Storage as it is saved: in order.
pub open spec fn listed_storage(storage: Map<Address, Map<U256, U256>>) -> Seq<
    (Address, Seq<(U256, U256)>),
> {
    in_order(storage.dom()).map_values(
        |address: Address| (address, listed_pairs(storage[address])),
    )
}

/// Accounts with saved ones entered, one after the other.
pub open spec fn with_saved_accounts(
    accounts: Map<Address, InfoModel>,
    saved: Seq<(Address, BinaryAccountInfo)>,
) -> Map<Address, InfoModel>
    decreases saved.len(),
{
    if saved.len() == 0 {
        accounts
    } else {
        with_saved_accounts(accounts, saved.drop_last()).insert(
            saved.last().0,
            codeless(saved.last().1),
        )
    }
}

/// The slots that pairs give, later pairs over earlier ones.
pub open spec fn paired_slots(pairs: Seq<(U256, U256)>) -> Map<U256, U256>
    decreases pairs.len(),
{
    if pairs.len() == 0 {
        Map::empty()
    } else {
        paired_slots(pairs.drop_last()).insert(pairs.last().0, pairs.last().1)
    }
}

/// Storage with saved slots entered, one account after the other.
pub open spec fn with_saved_storage(
    storage: Map<Address, Map<U256, U256>>,
    saved: Seq<(Address, Seq<(U256, U256)>)>,
) -> Map<Address, Map<U256, U256>>
    decreases saved.len(),
{
    if saved.len() == 0 {
        storage
    } else {
        with_saved_storage(storage, saved.drop_last()).insert(
            saved.last().0,
            paired_slots(saved.last().1),
        )
    }
}

/// Slots as they are saved.
pub fn list_pairs(slots: &SlotMap) -> (r: Vec<(U256, U256)>)
    ensures
        r@ == listed_pairs(slots@),
{
    let n: usize = slots.len();
    let mut list: Vec<(U256, U256)> = Vec::new();
    let mut i: usize = 0;
    while i < n
        invariant
            i <= n == slots.order().len(),
            slots.order() == in_order(slots@.dom()),
            list@ =~= listed_pairs(slots@).take(i as int),
        decreases n - i,
    {
        list.push((slots.key_at(i), *slots.value_at(i)));
        i = i + 1;
    }
    assert(list@ =~= listed_pairs(slots@));
    list
}

/// The slots that pairs give.
pub fn slots_from_pairs(pairs: &Vec<(U256, U256)>) -> (r: SlotMap)
    ensures
        r@ == paired_slots(pairs@),
{
    let mut slots: SlotMap = SortedMap::new();
    let mut i: usize = 0;
    assert(pairs@.take(0) =~= Seq::empty());
    while i < pairs.len()
        invariant
            i <= pairs.len(),
            slots@ == paired_slots(pairs@.take(i as int)),
        decreases pairs.len() - i,
    {
        assert(pairs@.take(i + 1).drop_last() =~= pairs@.take(i as int));
        slots.insert(pairs[i].0, pairs[i].1);
        i = i + 1;
    }
    assert(pairs@.take(i as int) =~= pairs@);
    slots
}

impl BinaryEvmState {
    /// State as it is saved.
    pub fn capture(
        accounts: &SortedMap<Address, AccountInfo>,
        storage: &SortedMap<Address, SlotMap>,
    ) -> (r: Self)
        ensures
            r.accounts@ == listed_accounts(accounts_model(accounts@)),
            saved_storage(r.storage@) == listed_storage(storage_model(storage@)),
    {
        let n: usize = accounts.len();
        let ghost model = accounts_model(accounts@);
        assert(model.dom() =~= accounts@.dom());
        let mut listed: Vec<(Address, BinaryAccountInfo)> = Vec::new();
        let mut i: usize = 0;
        while i < n
            invariant
                i <= n == accounts.order().len(),
                accounts.order() == in_order(accounts@.dom()),
                model == accounts_model(accounts@),
                model.dom() == accounts@.dom(),
                listed@ =~= listed_accounts(model).take(i as int),
            decreases n - i,
        {
            let info: &AccountInfo = accounts.value_at(i);
            let address: Address = accounts.key_at(i);
            assert(model[address] == info@);
            listed.push(
                (
                    address,
                    BinaryAccountInfo {
                        balance: info.balance,
                        nonce: info.nonce,
                        code_hash: info.code_hash,
                    },
                ),
            );
            i = i + 1;
        }
        assert(listed@ =~= listed_accounts(model));
        let m: usize = storage.len();
        let ghost slots_model = storage_model(storage@);
        assert(slots_model.dom() =~= storage@.dom());
        let mut listed_slots: Vec<(Address, Vec<(U256, U256)>)> = Vec::new();
        let mut j: usize = 0;
        while j < m
            invariant
                j <= m == storage.order().len(),
                storage.order() == in_order(storage@.dom()),
                slots_model == storage_model(storage@),
                slots_model.dom() == storage@.dom(),
                saved_storage(listed_slots@) =~= listed_storage(slots_model).take(j as int),
            decreases m - j,
        {
            let address: Address = storage.key_at(j);
            let slots: &SlotMap = storage.value_at(j);
            let pairs: Vec<(U256, U256)> = list_pairs(slots);
            let ghost before = saved_storage(listed_slots@);
            let ghost made = (address, pairs@);
            proof {
                assert(slots_model[address] == slots@);
                assert(listed_storage(slots_model)[j as int] == made);
            }
            listed_slots.push((address, pairs));
            assert(saved_storage(listed_slots@) =~= before.push(made));
            j = j + 1;
        }
        assert(saved_storage(listed_slots@) =~= listed_storage(slots_model));
        BinaryEvmState { accounts: listed, storage: listed_slots }
    }

    /// Enters saved state into accounts, without code, and storage.
    pub fn populate(
        &self,
        accounts: &mut SortedMap<Address, AccountInfo>,
        storage: &mut SortedMap<Address, SlotMap>,
    )
        ensures
            accounts_model(final(accounts)@) == with_saved_accounts(
                accounts_model(old(accounts)@),
                self.accounts@,
            ),
            storage_model(final(storage)@) == with_saved_storage(
                storage_model(old(storage)@),
                saved_storage(self.storage@),
            ),
    {
        let mut i: usize = 0;
        assert(self.accounts@.take(0) =~= Seq::empty());
        while i < self.accounts.len()
            invariant
                i <= self.accounts.len(),
                storage@ == old(storage)@,
                accounts_model(accounts@) == with_saved_accounts(
                    accounts_model(old(accounts)@),
                    self.accounts@.take(i as int),
                ),
            decreases self.accounts.len() - i,
        {
            assert(self.accounts@.take(i + 1).drop_last() =~= self.accounts@.take(i as int));
            let address: Address = self.accounts[i].0;
            let saved: BinaryAccountInfo = self.accounts[i].1;
            let info = AccountInfo {
                balance: saved.balance,
                nonce: saved.nonce,
                code_hash: saved.code_hash,
                code: None,
            };
            let ghost before = accounts@;
            let ghost made = info@;
            accounts.insert(address, info);
            assert(accounts_model(accounts@) =~= accounts_model(before).insert(address, made));
            i = i + 1;
        }
        assert(self.accounts@.take(i as int) =~= self.accounts@);
        let mut j: usize = 0;
        let ghost saved = saved_storage(self.storage@);
        assert(saved.take(0) =~= Seq::empty());
        while j < self.storage.len()
            invariant
                j <= self.storage.len(),
                saved == saved_storage(self.storage@),
                accounts_model(accounts@) == with_saved_accounts(
                    accounts_model(old(accounts)@),
                    self.accounts@,
                ),
                storage_model(storage@) == with_saved_storage(
                    storage_model(old(storage)@),
                    saved.take(j as int),
                ),
            decreases self.storage.len() - j,
        {
            assert(saved.take(j + 1).drop_last() =~= saved.take(j as int));
            let address: Address = self.storage[j].0;
            let slots: SlotMap = slots_from_pairs(&self.storage[j].1);
            let ghost before = storage@;
            let ghost made = slots@;
            storage.insert(address, slots);
            assert(storage_model(storage@) =~= storage_model(before).insert(address, made));
            j = j + 1;
        }
        assert(saved.take(j as int) =~= saved);
    }
}

/// Saved accounts, in order.
pub type SavedAccounts = Seq<(Address, BinaryAccountInfo)>;

/// Saved storage, in order.
pub type SavedStorage = Seq<(Address, Seq<(U256, U256)>)>;

/// An account as it stands in a payload.
pub open spec fn account_row(entry: (Address, BinaryAccountInfo)) -> AccountRow {
    (
        be_bytes(entry.0@, 20),
        be_bytes(entry.1.balance@, 32),
        entry.1.nonce,
        be_bytes(entry.1.code_hash@, 32),
    )
}

/// A slot as it stands in a payload.
pub open spec fn pair_row(pair: (U256, U256)) -> (Seq<u8>, Seq<u8>) {
    (be_bytes(pair.0@, 32), be_bytes(pair.1@, 32))
}

/// The storage of an account as it stands in a payload.
pub open spec fn storage_row(entry: (Address, Seq<(U256, U256)>)) -> StorageRow {
    (be_bytes(entry.0@, 20), entry.1.map_values(|pair: (U256, U256)| pair_row(pair)))
}

/// The account that stands in a row, if its parts have the right lengths.
pub open spec fn account_in(row: AccountRow) -> Option<(Address, BinaryAccountInfo)> {
    match (address_in(row.0), word_in(row.1), hash_in(row.3)) {
        (Some(address), Some(balance), Some(code_hash)) => Some(
            (address, BinaryAccountInfo { balance, nonce: row.2, code_hash }),
        ),
        _ => None,
    }
}

/// The accounts that stand in rows, if all of them can be read.
pub open spec fn accounts_in(rows: Seq<AccountRow>) -> Option<SavedAccounts>
    decreases rows.len(),
{
    if rows.len() == 0 {
        Some(Seq::empty())
    } else {
        match (accounts_in(rows.drop_last()), account_in(rows.last())) {
            (Some(before), Some(entry)) => Some(before.push(entry)),
            _ => None,
        }
    }
}

/// The slots that stand in rows, if all of them can be read.
pub open spec fn pairs_in(rows: Seq<(Seq<u8>, Seq<u8>)>) -> Option<Seq<(U256, U256)>>
    decreases rows.len(),
{
    if rows.len() == 0 {
        Some(Seq::empty())
    } else {
        match (pairs_in(rows.drop_last()), word_in(rows.last().0), word_in(rows.last().1)) {
            (Some(before), Some(slot), Some(value)) => Some(before.push((slot, value))),
            _ => None,
        }
    }
}

/// The storage that stands in rows, if all of it can be read.
pub open spec fn storage_in(rows: Seq<StorageRow>) -> Option<SavedStorage>
    decreases rows.len(),
{
    if rows.len() == 0 {
        Some(Seq::empty())
    } else {
        match (storage_in(rows.drop_last()), address_in(rows.last().0), pairs_in(rows.last().1)) {
            (Some(before), Some(address), Some(pairs)) => Some(before.push((address, pairs))),
            _ => None,
        }
    }
}

/// The state that a payload holds, if it holds any.
pub open spec fn decoded_state(payload: Seq<u8>) -> Option<(SavedAccounts, SavedStorage)> {
    match state_in(payload) {
        Some(rows) => match (accounts_in(rows.0), storage_in(rows.1)) {
            (Some(accounts), Some(storage)) => Some((accounts, storage)),
            _ => None,
        },
        None => None,
    }
}

/// The state that a file holds, if it is there, of the right kind and version, and
/// its payload holds any.
pub open spec fn loaded_state(data: Option<Seq<u8>>) -> Option<(SavedAccounts, SavedStorage)> {
    match data {
        Some(bytes) => match unframed(bytes, BINARY_STATE_MAGIC@, BINARY_STATE_VERSION) {
            Some(payload) => decoded_state(payload),
            None => None,
        },
        None => None,
    }
}

/// Whether a file is that of accounts and storage: its bytes, and what is read back
/// from them.
pub open spec fn is_state_file(
    file: Seq<u8>,
    accounts: Map<Address, InfoModel>,
    storage: Map<Address, Map<U256, U256>>,
) -> bool {
    &&& file == frame(
        BINARY_STATE_MAGIC@,
        BINARY_STATE_VERSION,
        state_payload(
            listed_accounts(accounts).map_values(
                |entry: (Address, BinaryAccountInfo)| account_row(entry),
            ),
            listed_storage(storage).map_values(
                |entry: (Address, Seq<(U256, U256)>)| storage_row(entry),
            ),
        ),
    )
    &&& loaded_state(Some(file)) == Some((listed_accounts(accounts), listed_storage(storage)))
}

/// Accounts as they stand in a payload.
fn account_bytes(entries: &Vec<(Address, BinaryAccountInfo)>) -> (r: Vec<AccountBytes>)
    ensures
        account_rows(r@) == entries@.map_values(
            |entry: (Address, BinaryAccountInfo)| account_row(entry),
        ),
{
    let mut rows: Vec<AccountBytes> = Vec::new();
    let ghost all = entries@.map_values(|entry: (Address, BinaryAccountInfo)| account_row(entry));
    let mut i: usize = 0;
    while i < entries.len()
        invariant
            i <= entries.len(),
            all == entries@.map_values(
                |entry: (Address, BinaryAccountInfo)| account_row(entry),
            ),
            account_rows(rows@) =~= all.take(i as int),
        decreases entries.len() - i,
    {
        let info: BinaryAccountInfo = entries[i].1;
        let ghost before = account_rows(rows@);
        let row: AccountBytes = (
            entries[i].0.to_vec(),
            word_bytes(info.balance),
            info.nonce,
            info.code_hash.to_vec(),
        );
        let ghost made = (row.0@, row.1@, row.2, row.3@);
        assert(made == all[i as int]);
        rows.push(row);
        assert(account_rows(rows@) =~= before.push(made));
        i = i + 1;
    }
    assert(account_rows(rows@) =~= all);
    rows
}

/// Slots as they stand in a payload.
fn pair_bytes(pairs: &Vec<(U256, U256)>) -> (r: Vec<(Vec<u8>, Vec<u8>)>)
    ensures
        pair_rows(r@) == pairs@.map_values(|pair: (U256, U256)| pair_row(pair)),
{
    let mut rows: Vec<(Vec<u8>, Vec<u8>)> = Vec::new();
    let ghost all = pairs@.map_values(|pair: (U256, U256)| pair_row(pair));
    let mut i: usize = 0;
    while i < pairs.len()
        invariant
            i <= pairs.len(),
            all == pairs@.map_values(|pair: (U256, U256)| pair_row(pair)),
            pair_rows(rows@) =~= all.take(i as int),
        decreases pairs.len() - i,
    {
        let ghost before = pair_rows(rows@);
        let row: (Vec<u8>, Vec<u8>) = (word_bytes(pairs[i].0), word_bytes(pairs[i].1));
        let ghost made = (row.0@, row.1@);
        assert(made == all[i as int]);
        rows.push(row);
        assert(pair_rows(rows@) =~= before.push(made));
        i = i + 1;
    }
    assert(pair_rows(rows@) =~= all);
    rows
}

/// Storage as it stands in a payload.
fn storage_bytes(entries: &Vec<(Address, Vec<(U256, U256)>)>) -> (r: Vec<StorageBytes>)
    ensures
        storage_rows(r@) == saved_storage(entries@).map_values(
            |entry: (Address, Seq<(U256, U256)>)| storage_row(entry),
        ),
{
    let mut rows: Vec<StorageBytes> = Vec::new();
    let ghost all = saved_storage(entries@).map_values(
        |entry: (Address, Seq<(U256, U256)>)| storage_row(entry),
    );
    let mut i: usize = 0;
    while i < entries.len()
        invariant
            i <= entries.len(),
            all == saved_storage(entries@).map_values(
                |entry: (Address, Seq<(U256, U256)>)| storage_row(entry),
            ),
            storage_rows(rows@) =~= all.take(i as int),
        decreases entries.len() - i,
    {
        let ghost before = storage_rows(rows@);
        let row: StorageBytes = (entries[i].0.to_vec(), pair_bytes(&entries[i].1));
        let ghost made = (row.0@, pair_rows(row.1@));
        assert(saved_storage(entries@)[i as int] == (entries@[i as int].0, entries@[i as int].1@));
        assert(made == all[i as int]);
        rows.push(row);
        assert(storage_rows(rows@) =~= before.push(made));
        i = i + 1;
    }
    assert(storage_rows(rows@) =~= all);
    rows
}

/// The accounts that stand in rows, if all of them can be read.
fn read_accounts(rows: &Vec<AccountBytes>) -> (r: Option<Vec<(Address, BinaryAccountInfo)>>)
    ensures
        match r {
            Some(entries) => accounts_in(account_rows(rows@)) == Some(entries@),
            None => accounts_in(account_rows(rows@)) is None,
        },
{
    let ghost all = account_rows(rows@);
    let mut entries: Vec<(Address, BinaryAccountInfo)> = Vec::new();
    let mut readable: bool = true;
    let mut i: usize = 0;
    assert(all.take(0) =~= Seq::empty());
    while i < rows.len()
        invariant
            i <= rows.len(),
            all == account_rows(rows@),
            readable ==> accounts_in(all.take(i as int)) == Some(entries@),
            !readable ==> accounts_in(all.take(i as int)) is None,
        decreases rows.len() - i,
    {
        proof {
            assert(all.take(i + 1).drop_last() =~= all.take(i as int));
            assert(all.take(i + 1).last() == all[i as int]);
        }
        match (read_address(&rows[i].0), read_word(&rows[i].1), read_hash(&rows[i].3)) {
            (Some(address), Some(balance), Some(code_hash)) => {
                entries.push(
                    (address, BinaryAccountInfo { balance, nonce: rows[i].2, code_hash }),
                );
            },
            _ => {
                readable = false;
            },
        }
        i = i + 1;
    }
    assert(all.take(i as int) =~= all);
    if readable {
        Some(entries)
    } else {
        None
    }
}

/// The slots that stand in rows, if all of them can be read.
fn read_pairs(rows: &Vec<(Vec<u8>, Vec<u8>)>) -> (r: Option<Vec<(U256, U256)>>)
    ensures
        match r {
            Some(pairs) => pairs_in(pair_rows(rows@)) == Some(pairs@),
            None => pairs_in(pair_rows(rows@)) is None,
        },
{
    let ghost all = pair_rows(rows@);
    let mut pairs: Vec<(U256, U256)> = Vec::new();
    let mut readable: bool = true;
    let mut i: usize = 0;
    assert(all.take(0) =~= Seq::empty());
    while i < rows.len()
        invariant
            i <= rows.len(),
            all == pair_rows(rows@),
            readable ==> pairs_in(all.take(i as int)) == Some(pairs@),
            !readable ==> pairs_in(all.take(i as int)) is None,
        decreases rows.len() - i,
    {
        proof {
            assert(all.take(i + 1).drop_last() =~= all.take(i as int));
            assert(all.take(i + 1).last() == all[i as int]);
        }
        match (read_word(&rows[i].0), read_word(&rows[i].1)) {
            (Some(slot), Some(value)) => {
                pairs.push((slot, value));
            },
            _ => {
                readable = false;
            },
        }
        i = i + 1;
    }
    assert(all.take(i as int) =~= all);
    if readable {
        Some(pairs)
    } else {
        None
    }
}

/// The storage that stands in rows, if all of it can be read.
fn read_storage(rows: &Vec<StorageBytes>) -> (r: Option<Vec<(Address, Vec<(U256, U256)>)>>)
    ensures
        match r {
            Some(entries) => storage_in(storage_rows(rows@)) == Some(saved_storage(entries@)),
            None => storage_in(storage_rows(rows@)) is None,
        },
{
    let ghost all = storage_rows(rows@);
    let mut entries: Vec<(Address, Vec<(U256, U256)>)> = Vec::new();
    let mut readable: bool = true;
    let mut i: usize = 0;
    proof {
        assert(all.take(0) =~= Seq::empty());
        assert(saved_storage(entries@) =~= Seq::empty());
    }
    while i < rows.len()
        invariant
            i <= rows.len(),
            all == storage_rows(rows@),
            readable ==> storage_in(all.take(i as int)) == Some(saved_storage(entries@)),
            !readable ==> storage_in(all.take(i as int)) is None,
        decreases rows.len() - i,
    {
        proof {
            assert(all.take(i + 1).drop_last() =~= all.take(i as int));
            assert(all.take(i + 1).last() == all[i as int]);
        }
        let ghost before = saved_storage(entries@);
        match (read_address(&rows[i].0), read_pairs(&rows[i].1)) {
            (Some(address), Some(pairs)) => {
                let ghost made = (address, pairs@);
                entries.push((address, pairs));
                assert(saved_storage(entries@) =~= before.push(made));
            },
            _ => {
                readable = false;
            },
        }
        i = i + 1;
    }
    assert(all.take(i as int) =~= all);
    if readable {
        Some(entries)
    } else {
        None
    }
}

/// Accounts are read back from their rows.
proof fn lemma_accounts_are_read_back(entries: SavedAccounts)
    ensures
        accounts_in(
            entries.map_values(|entry: (Address, BinaryAccountInfo)| account_row(entry)),
        ) == Some(entries),
    decreases entries.len(),
{
    let rows = entries.map_values(|entry: (Address, BinaryAccountInfo)| account_row(entry));
    if entries.len() == 0 {
        assert(entries =~= Seq::empty());
    } else {
        let less = entries.drop_last();
        let last = entries.last();
        lemma_accounts_are_read_back(less);
        assert(rows.drop_last() =~= less.map_values(
            |entry: (Address, BinaryAccountInfo)| account_row(entry),
        ));
        lemma_address_comes_back(last.0);
        lemma_word_comes_back(last.1.balance);
        lemma_hash_comes_back(last.1.code_hash);
        assert(account_in(rows.last()) == Some(last));
        assert(less.push(last) =~= entries);
    }
}

/// Slots are read back from their rows.
proof fn lemma_pairs_are_read_back(pairs: Seq<(U256, U256)>)
    ensures
        pairs_in(pairs.map_values(|pair: (U256, U256)| pair_row(pair))) == Some(pairs),
    decreases pairs.len(),
{
    let rows = pairs.map_values(|pair: (U256, U256)| pair_row(pair));
    if pairs.len() == 0 {
        assert(pairs =~= Seq::empty());
    } else {
        let less = pairs.drop_last();
        let last = pairs.last();
        lemma_pairs_are_read_back(less);
        assert(rows.drop_last() =~= less.map_values(|pair: (U256, U256)| pair_row(pair)));
        lemma_word_comes_back(last.0);
        lemma_word_comes_back(last.1);
        assert(less.push(last) =~= pairs);
    }
}

/// Storage is read back from its rows.
proof fn lemma_storage_is_read_back(entries: SavedStorage)
    ensures
        storage_in(
            entries.map_values(|entry: (Address, Seq<(U256, U256)>)| storage_row(entry)),
        ) == Some(entries),
    decreases entries.len(),
{
    let rows = entries.map_values(|entry: (Address, Seq<(U256, U256)>)| storage_row(entry));
    if entries.len() == 0 {
        assert(entries =~= Seq::empty());
    } else {
        let less = entries.drop_last();
        let last = entries.last();
        lemma_storage_is_read_back(less);
        assert(rows.drop_last() =~= less.map_values(
            |entry: (Address, Seq<(U256, U256)>)| storage_row(entry),
        ));
        lemma_address_comes_back(last.0);
        lemma_pairs_are_read_back(last.1);
        assert(less.push(last) =~= entries);
    }
}

/// The file of accounts, without code, and storage. What it holds is read back from
/// it.
pub fn save_binary_state(
    accounts: &SortedMap<Address, AccountInfo>,
    storage: &SortedMap<Address, SlotMap>,
) -> (r: Result<Vec<u8>, String>)
    ensures
        match r {
            Ok(file) => is_state_file(
                file@,
                accounts_model(accounts@),
                storage_model(storage@),
            ),
            Err(_) => false,
        },
{
    let state: BinaryEvmState = BinaryEvmState::capture(accounts, storage);
    let encoded: Result<Vec<u8>, String> = encode_state(
        &account_bytes(&state.accounts),
        &storage_bytes(&state.storage),
    );
    match encoded {
        Ok(payload) => {
            proof {
                let saved = listed_accounts(accounts_model(accounts@));
                let saved_slots = listed_storage(storage_model(storage@));
                lemma_accounts_are_read_back(saved);
                lemma_storage_is_read_back(saved_slots);
                versioned::law_frame_round_trip(
                    BINARY_STATE_MAGIC@,
                    BINARY_STATE_VERSION,
                    payload@,
                );
            }
            Ok(versioned::encode(&BINARY_STATE_MAGIC, BINARY_STATE_VERSION, payload.as_slice()))
        },
        Err(details) => Err(details),
    }
}

/// Whether what a file holds was entered into accounts and storage: all of it, or
/// nothing where it holds nothing.
pub open spec fn is_entered(
    loaded: Option<(SavedAccounts, SavedStorage)>,
    accounts_before: SortedMap<Address, AccountInfo>,
    storage_before: SortedMap<Address, SlotMap>,
    accounts_after: SortedMap<Address, AccountInfo>,
    storage_after: SortedMap<Address, SlotMap>,
    r: bool,
) -> bool {
    match loaded {
        Some(state) => {
            &&& r
            &&& accounts_model(accounts_after@) == with_saved_accounts(
                accounts_model(accounts_before@),
                state.0,
            )
            &&& storage_model(storage_after@) == with_saved_storage(
                storage_model(storage_before@),
                state.1,
            )
        },
        None => !r && accounts_after == accounts_before && storage_after == storage_before,
    }
}

/// The state that a payload holds, if it holds any.
fn decode_binary_state(payload: &[u8]) -> (r: Option<BinaryEvmState>)
    ensures
        match r {
            Some(state) => decoded_state(payload@) == Some(
                (state.accounts@, saved_storage(state.storage@)),
            ),
            None => decoded_state(payload@) is None,
        },
{
    match decode_state(payload) {
        Some((accounts, storage)) => match (read_accounts(&accounts), read_storage(&storage)) {
            (Some(accounts), Some(storage)) => Some(BinaryEvmState { accounts, storage }),
            _ => None,
        },
        None => None,
    }
}

/// Enters the state of a file into accounts, without code, and storage. The result
/// tells whether there was any: a file that is not there or cannot be read changes
/// nothing.
pub fn load_binary_state(
    data: Option<&[u8]>,
    accounts: &mut SortedMap<Address, AccountInfo>,
    storage: &mut SortedMap<Address, SlotMap>,
) -> (r: bool)
    ensures
        is_entered(
            loaded_state(contents(data)),
            *old(accounts),
            *old(storage),
            *final(accounts),
            *final(storage),
            r,
        ),
{
    let bytes: &[u8] = match data {
        Some(bytes) => bytes,
        None => {
            return false;
        },
    };
    let payload: Vec<u8> = match versioned::decode(
        bytes,
        &BINARY_STATE_MAGIC,
        BINARY_STATE_VERSION,
    ) {
        Some(payload) => payload,
        None => {
            return false;
        },
    };
    match decode_binary_state(payload.as_slice()) {
        Some(state) => {
            state.populate(accounts, storage);
            true
        },
        None => false,
    }
}

/// Listing distinct keys with the values of a map and entering them gives the
/// map on those keys.
proof fn lemma_pairs_come_back(slots: Map<U256, U256>, keys: Seq<U256>)
    requires
        keys.to_set().subset_of(slots.dom()),
    ensures
        paired_slots(keys.map_values(|slot: U256| (slot, slots[slot]))) == slots.restrict(
            keys.to_set(),
        ),
    decreases keys.len(),
{
    let pairs = keys.map_values(|slot: U256| (slot, slots[slot]));
    if keys.len() == 0 {
        assert(keys.to_set() =~= Set::empty());
        assert(paired_slots(pairs) =~= slots.restrict(keys.to_set()));
    } else {
        let less = keys.drop_last();
        lemma_take_extend(keys, keys.len() - 1);
        assert(keys.take(keys.len() as int) =~= keys);
        assert(keys.take(keys.len() - 1) =~= less);
        lemma_pairs_come_back(slots, less);
        assert(pairs.drop_last() =~= less.map_values(|slot: U256| (slot, slots[slot])));
        assert(slots.contains_key(keys.last())) by {
            assert(keys.to_set().contains(keys.last()));
        }
        assert(paired_slots(pairs) =~= slots.restrict(keys.to_set()));
    }
}

/// The accounts of the keys come back without code.
proof fn lemma_accounts_come_back(accounts: Map<Address, InfoModel>, keys: Seq<Address>)
    requires
        keys.to_set().subset_of(accounts.dom()),
    ensures
        with_saved_accounts(
            Map::empty(),
            keys.map_values(|address: Address| (address, bare(accounts[address]))),
        ) == accounts.restrict(keys.to_set()).map_values(|info: InfoModel| codeless(bare(info))),
    decreases keys.len(),
{
    let saved = keys.map_values(|address: Address| (address, bare(accounts[address])));
    let target = accounts.restrict(keys.to_set()).map_values(
        |info: InfoModel| codeless(bare(info)),
    );
    if keys.len() == 0 {
        assert(keys.to_set() =~= Set::empty());
        assert(with_saved_accounts(Map::empty(), saved) =~= target);
    } else {
        let less = keys.drop_last();
        lemma_take_extend(keys, keys.len() - 1);
        assert(keys.take(keys.len() as int) =~= keys);
        assert(keys.take(keys.len() - 1) =~= less);
        lemma_accounts_come_back(accounts, less);
        assert(saved.drop_last() =~= less.map_values(
            |address: Address| (address, bare(accounts[address])),
        ));
        assert(accounts.contains_key(keys.last())) by {
            assert(keys.to_set().contains(keys.last()));
        }
        assert(with_saved_accounts(Map::empty(), saved) =~= target);
    }
}

/// The storage of the keys comes back.
proof fn lemma_storage_comes_back(storage: Map<Address, Map<U256, U256>>, keys: Seq<Address>)
    requires
        keys.to_set().subset_of(storage.dom()),
        forall|address: Address| #[trigger]
            storage.contains_key(address) ==> storage[address].dom().finite(),
    ensures
        with_saved_storage(
            Map::empty(),
            keys.map_values(|address: Address| (address, listed_pairs(storage[address]))),
        ) == storage.restrict(keys.to_set()),
    decreases keys.len(),
{
    let saved = keys.map_values(|address: Address| (address, listed_pairs(storage[address])));
    if keys.len() == 0 {
        assert(keys.to_set() =~= Set::empty());
        assert(with_saved_storage(Map::empty(), saved) =~= storage.restrict(keys.to_set()));
    } else {
        let less = keys.drop_last();
        let last = keys.last();
        lemma_take_extend(keys, keys.len() - 1);
        assert(keys.take(keys.len() as int) =~= keys);
        assert(keys.take(keys.len() - 1) =~= less);
        lemma_storage_comes_back(storage, less);
        assert(saved.drop_last() =~= less.map_values(
            |address: Address| (address, listed_pairs(storage[address])),
        ));
        assert(storage.contains_key(last)) by {
            assert(keys.to_set().contains(last));
        }
        lemma_in_order_lists(storage[last].dom());
        lemma_pairs_come_back(storage[last], in_order(storage[last].dom()));
        assert(storage[last].restrict(storage[last].dom()) =~= storage[last]);
        assert(with_saved_storage(Map::empty(), saved) =~= storage.restrict(keys.to_set()));
    }
}

/// State that is saved and loaded comes back: every account, without its code, and
/// every slot.
pub proof fn law_saved_state_comes_back(
    accounts: Map<Address, InfoModel>,
    storage: Map<Address, Map<U256, U256>>,
)
    requires
        accounts.dom().finite(),
        storage.dom().finite(),
        forall|address: Address| #[trigger]
            storage.contains_key(address) ==> storage[address].dom().finite(),
    ensures
        with_saved_accounts(Map::empty(), listed_accounts(accounts)) == accounts.map_values(
            |info: InfoModel| InfoModel { code: None, ..info },
        ),
        with_saved_storage(Map::empty(), listed_storage(storage)) == storage,
{
    lemma_in_order_lists(accounts.dom());
    lemma_accounts_come_back(accounts, in_order(accounts.dom()));
    assert(accounts.restrict(accounts.dom()).map_values(|info: InfoModel| codeless(bare(info)))
        =~= accounts.map_values(|info: InfoModel| InfoModel { code: None, ..info }));
    lemma_in_order_lists(storage.dom());
    lemma_storage_comes_back(storage, in_order(storage.dom()));
    assert(storage.restrict(storage.dom()) =~= storage);
}

/// A state file that was written loads: where there was nothing before, exactly the
/// accounts that were saved are there, without their code, and exactly the slots.
/// The file starts with its kind, `EFCSTAT` and a zero byte, and its version.
pub proof fn law_state_file_comes_back(
    file: Seq<u8>,
    accounts: Map<Address, InfoModel>,
    storage: Map<Address, Map<U256, U256>>,
    accounts_before: SortedMap<Address, AccountInfo>,
    storage_before: SortedMap<Address, SlotMap>,
    accounts_after: SortedMap<Address, AccountInfo>,
    storage_after: SortedMap<Address, SlotMap>,
    r: bool,
)
    requires
        accounts.dom().finite(),
        storage.dom().finite(),
        forall|address: Address| #[trigger]
            storage.contains_key(address) ==> storage[address].dom().finite(),
        is_state_file(file, accounts, storage),
        accounts_before@ == Map::<Address, AccountInfo>::empty(),
        storage_before@ == Map::<Address, SlotMap>::empty(),
        is_entered(
            loaded_state(Some(file)),
            accounts_before,
            storage_before,
            accounts_after,
            storage_after,
            r,
        ),
    ensures
        file.take(8) == seq![0x45u8, 0x46u8, 0x43u8, 0x53u8, 0x54u8, 0x41u8, 0x54u8, 0u8],
        file.subrange(8, 12) == seq![1u8, 0u8, 0u8, 0u8],
        r,
        accounts_model(accounts_after@) == accounts.map_values(
            |info: InfoModel| InfoModel { code: None, ..info },
        ),
        storage_model(storage_after@) == storage,
{
    let payload = state_payload(
        listed_accounts(accounts).map_values(
            |entry: (Address, BinaryAccountInfo)| account_row(entry),
        ),
        listed_storage(storage).map_values(
            |entry: (Address, Seq<(U256, U256)>)| storage_row(entry),
        ),
    );
    versioned::law_frame_starts_with_its_kind(BINARY_STATE_MAGIC@, BINARY_STATE_VERSION, payload);
    assert(BINARY_STATE_MAGIC@ =~= seq![
        0x45u8,
        0x46u8,
        0x43u8,
        0x53u8,
        0x54u8,
        0x41u8,
        0x54u8,
        0u8,
    ]);
    assert(version_bytes(1) =~= seq![1u8, 0u8, 0u8, 0u8]);
    law_saved_state_comes_back(accounts, storage);
    assert(accounts_model(accounts_before@) =~= Map::empty());
    assert(storage_model(storage_before@) =~= Map::empty());
}

/// A state file that is not there, is of another kind or version, or whose payload
/// cannot be decoded, is refused, and changes nothing.
pub proof fn law_unreadable_state_changes_nothing(
    data: Option<Seq<u8>>,
    accounts_before: SortedMap<Address, AccountInfo>,
    storage_before: SortedMap<Address, SlotMap>,
    accounts_after: SortedMap<Address, AccountInfo>,
    storage_after: SortedMap<Address, SlotMap>,
    r: bool,
)
    requires
        data matches Some(bytes) ==> (unframed(bytes, BINARY_STATE_MAGIC@, BINARY_STATE_VERSION)
            matches Some(payload) ==> decoded_state(payload) is None),
        is_entered(
            loaded_state(data),
            accounts_before,
            storage_before,
            accounts_after,
            storage_after,
            r,
        ),
    ensures
        !r,
        accounts_after == accounts_before,
        storage_after == storage_before,
{
}

} // verus!
