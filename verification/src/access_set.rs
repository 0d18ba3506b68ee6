//! The set of accounts, slots and hashes that a call touches.

use crate::access_list::{AccessList, AccessListItem};
use crate::collections::{ascending, Key, SortedSet};
use crate::primitives::{Address, SlotKey, B256, U256};
use vstd::prelude::*;

verus! {

/// Gas that a warm account saves over a cold one.
pub const ACCOUNT_SAVINGS: u64 = 2500;

/// Gas that a warm slot saves over a cold one.
pub const SLOT_SAVINGS: u64 = 2000;

/// What a call touches.
pub struct StorageAccessList {
    /// Touched accounts.
    pub accounts: SortedSet<Address>,
    /// Hashes of code that was read.
    pub code_hashes: SortedSet<B256>,
    /// Touched storage slots.
    pub slots: SortedSet<SlotKey>,
    /// Heights whose block hash was read.
    pub block_numbers: SortedSet<u64>,
}

/// What a [`StorageAccessList`] holds.
#[verifier::ext_equal]
pub struct AccessModel {
    /// Touched accounts.
    pub accounts: Set<Address>,
    /// Hashes of code that was read.
    pub code_hashes: Set<B256>,
    /// Touched storage slots.
    pub slots: Set<SlotKey>,
    /// Heights whose block hash was read.
    pub block_numbers: Set<u64>,
}

impl AccessModel {
    /// Nothing.
    pub open spec fn empty() -> Self {
        AccessModel {
            accounts: Set::empty(),
            code_hashes: Set::empty(),
            slots: Set::empty(),
            block_numbers: Set::empty(),
        }
    }

    /// What either holds.
    pub open spec fn union(self, other: Self) -> Self {
        AccessModel {
            accounts: self.accounts.union(other.accounts),
            code_hashes: self.code_hashes.union(other.code_hashes),
            slots: self.slots.union(other.slots),
            block_numbers: self.block_numbers.union(other.block_numbers),
        }
    }

    /// What this holds and `other` lacks.
    pub open spec fn difference(self, other: Self) -> Self {
        AccessModel {
            accounts: self.accounts.difference(other.accounts),
            code_hashes: self.code_hashes.difference(other.code_hashes),
            slots: self.slots.difference(other.slots),
            block_numbers: self.block_numbers.difference(other.block_numbers),
        }
    }

    /// Whether `other` holds all of it.
    pub open spec fn subset_of(self, other: Self) -> bool {
        &&& self.accounts.subset_of(other.accounts)
        &&& self.code_hashes.subset_of(other.code_hashes)
        &&& self.slots.subset_of(other.slots)
        &&& self.block_numbers.subset_of(other.block_numbers)
    }
}

impl View for StorageAccessList {
    type V = AccessModel;

    open spec fn view(&self) -> AccessModel {
        AccessModel {
            accounts: self.accounts@,
            code_hashes: self.code_hashes@,
            slots: self.slots@,
            block_numbers: self.block_numbers@,
        }
    }
}

impl Default for StorageAccessList {
    fn default() -> (r: Self)
        ensures
            r@ == AccessModel::empty(),
    {
        StorageAccessList {
            accounts: SortedSet::new(),
            code_hashes: SortedSet::new(),
            slots: SortedSet::new(),
            block_numbers: SortedSet::new(),
        }
    }
}

/// The storage key of a slot.
pub open spec fn key_of(slot: U256) -> B256 {
    B256 { hi: slot.hi, lo: slot.lo }
}

/// The slot of a storage key.
pub open spec fn slot_of(key: B256) -> U256 {
    U256 { hi: key.hi, lo: key.lo }
}

/// The storage keys that `slots` names at one address.
pub open spec fn keys_at(slots: Set<SlotKey>, address: Address) -> Set<B256> {
    Set::new(|k: B256| slots.contains(SlotKey { address, slot: slot_of(k) }))
}

/// The addresses that need an entry: every account, and the owner of every
/// slot.
pub open spec fn entry_addresses(model: AccessModel) -> Set<Address> {
    Set::new(
        |a: Address|
            model.accounts.contains(a) || exists|s: U256|
                #[trigger] model.slots.contains(SlotKey { address: a, slot: s }),
    )
}

/// Whether `list` is the access list of `model`: one entry per address, in
/// ascending order, each with its storage keys in ascending order.
pub open spec fn is_access_list(model: AccessModel, list: Seq<(Address, Seq<B256>)>) -> bool {
    let addresses = list.map_values(|item: (Address, Seq<B256>)| item.0);
    &&& ascending(addresses)
    &&& addresses.to_set() == entry_addresses(model)
    &&& forall|i: int|
        0 <= i < list.len() ==> {
            &&& ascending((#[trigger] list[i]).1)
            &&& list[i].1.to_set() == keys_at(model.slots, list[i].0)
        }
}

impl StorageAccessList {
    /// Whether no account and no slot was touched. Code hashes and block numbers
    /// do not count.
    pub fn is_empty(&self) -> (r: bool)
        ensures
            r == (self@.accounts == Set::<Address>::empty() && self@.slots
                == Set::<SlotKey>::empty()),
    {
        self.accounts.is_empty() && self.slots.is_empty()
    }

    /// The number of touched accounts.
    pub fn account_count(&self) -> (r: usize)
        ensures
            r == self@.accounts.len(),
    {
        self.accounts.len()
    }

    /// The number of touched slots.
    pub fn slot_count(&self) -> (r: usize)
        ensures
            r == self@.slots.len(),
    {
        self.slots.len()
    }

    /// The number of code hashes.
    pub fn code_hash_count(&self) -> (r: usize)
        ensures
            r == self@.code_hashes.len(),
    {
        self.code_hashes.len()
    }

    /// The number of block hashes.
    pub fn block_hash_count(&self) -> (r: usize)
        ensures
            r == self@.block_numbers.len(),
    {
        self.block_numbers.len()
    }

    /// Adds everything that `other` holds.
    pub fn extend(&mut self, other: &Self)
        ensures
            final(self)@ == old(self)@.union(other@),
    {
        self.accounts.extend(&other.accounts);
        self.code_hashes.extend(&other.code_hashes);
        self.slots.extend(&other.slots);
        self.block_numbers.extend(&other.block_numbers);
    }

    /// What this list holds and `warmed` lacks.
    pub fn missing_from(&self, warmed: &Self) -> (r: Self)
        ensures
            r@ == self@.difference(warmed@),
    {
        StorageAccessList {
            accounts: self.accounts.difference(&warmed.accounts),
            code_hashes: self.code_hashes.difference(&warmed.code_hashes),
            slots: self.slots.difference(&warmed.slots),
            block_numbers: self.block_numbers.difference(&warmed.block_numbers),
        }
    }

    /// Whether `warmed` holds all of this list.
    pub fn is_covered_by(&self, warmed: &Self) -> (r: bool)
        ensures
            r == self@.subset_of(warmed@),
    {
        self.accounts.is_subset(&warmed.accounts) && self.code_hashes.is_subset(
            &warmed.code_hashes,
        ) && self.slots.is_subset(&warmed.slots) && self.block_numbers.is_subset(
            &warmed.block_numbers,
        )
    }

    /// The gas that this list saves where `warmed` already paid for cold
    /// access: so much per shared account, and so much per shared slot.
    pub fn marginal_gas_savings(&self, warmed: &Self) -> (r: u64)
        requires
            self@.accounts.intersect(warmed@.accounts).len() * ACCOUNT_SAVINGS
                + self@.slots.intersect(warmed@.slots).len() * SLOT_SAVINGS <= u64::MAX,
        ensures
            r == self@.accounts.intersect(warmed@.accounts).len() * ACCOUNT_SAVINGS
                + self@.slots.intersect(warmed@.slots).len() * SLOT_SAVINGS,
    {
        let accounts: usize = self.accounts.shared_count(&warmed.accounts);
        let slots: usize = self.slots.shared_count(&warmed.slots);
        accounts as u64 * ACCOUNT_SAVINGS + slots as u64 * SLOT_SAVINGS
    }

    /// The access list of everything touched.
    pub fn to_eip2930(&self) -> (r: AccessList)
        ensures
            is_access_list(self@, r@),
    {
        let mut owners: SortedSet<Address> = self.accounts.copy();
        let n: usize = self.slots.len();
        let mut i: usize = 0;
        let ghost order = self.slots.order();
        while i < n
            invariant
                i <= n == order.len(),
                order == self.slots.order(),
                forall|a: Address| #[trigger]
                    owners@.contains(a) <==> self.accounts@.contains(a) || exists|j: int|
                        0 <= j < i && (#[trigger] order[j]).address == a,
            decreases n - i,
        {
            let owner: Address = self.slots.at(i).address;
            let ghost before = owners@;
            owners.insert(owner);
            proof {
                assert forall|a: Address| #[trigger] owners@.contains(a) <==>
                    self.accounts@.contains(a) || exists|j: int|
                    0 <= j < i + 1 && (#[trigger] order[j]).address == a by {
                    if before.contains(a) && !self.accounts@.contains(a) {
                        let j = choose|j: int| 0 <= j < i && (#[trigger] order[j]).address == a;
                        assert(order[j].address == a);
                    }
                    if a == owner {
                        assert(order[i as int].address == a);
                    }
                    if exists|j: int| 0 <= j < i + 1 && (#[trigger] order[j]).address == a {
                        let j = choose|j: int| 0 <= j < i + 1 && (#[trigger] order[j]).address == a;
                        if j < i {
                            assert(before.contains(a));
                        }
                    }
                }
            }
            i = i + 1;
        }
        proof {
            assert forall|a: Address| owners@.contains(a) <==> entry_addresses(self@).contains(a) by {
                if entry_addresses(self@).contains(a) && !self.accounts@.contains(a) {
                    let s = choose|s: U256| #[trigger]
                        self.slots@.contains(SlotKey { address: a, slot: s });
                    let k = order.index_of(SlotKey { address: a, slot: s });
                    assert(order.contains(SlotKey { address: a, slot: s }));
                    assert(order[k].address == a);
                }
                if owners@.contains(a) && !self.accounts@.contains(a) {
                    let j = choose|j: int| 0 <= j < n && (#[trigger] order[j]).address == a;
                    assert(order.contains(order[j]));
                    assert(self.slots@.contains(SlotKey { address: a, slot: order[j].slot }));
                }
            }
            assert(owners@ =~= entry_addresses(self@));
        }
        let m: usize = owners.len();
        let mut items: Vec<AccessListItem> = Vec::new();
        let mut k: usize = 0;
        let mut at: usize = 0;
        let ghost addresses = owners.order();
        proof {
            if m > 0 {
                assert forall|j: int| 0 <= j < n implies (#[trigger] order[j]).address@
                    >= addresses[0]@ by {
                    let owner = order[j].address;
                    assert(order.contains(order[j]));
                    assert(self@.slots.contains(SlotKey { address: owner, slot: order[j].slot }));
                    assert(entry_addresses(self@).contains(owner));
                    assert(addresses.to_set().contains(owner));
                    let l = addresses.index_of(owner);
                    assert(addresses[l] == owner);
                    if l > 0 {
                        assert(addresses[0].rank() < addresses[l].rank());
                    }
                }
            }
        }
        while k < m
            invariant
                k <= m == addresses.len(),
                addresses == owners.order(),
                ascending(addresses),
                at <= n == order.len(),
                order == self.slots.order(),
                ascending(order),
                self.slots@ == order.to_set(),
                addresses.to_set() == entry_addresses(self@),
                k < m ==> forall|j: int|
                    0 <= j < n ==> (j < at <==> (#[trigger] order[j]).address@ < addresses[
                        k as int
                    ]@),
                items@.len() == k,
                forall|l: int|
                    0 <= l < k ==> {
                        &&& (#[trigger] items@[l]).address == addresses[l]
                        &&& ascending(items@[l].storage_keys@)
                        &&& items@[l].storage_keys@.to_set() == keys_at(
                            self.slots@,
                            addresses[l],
                        )
                    },
            decreases m - k,
        {
            let address: Address = owners.at(k);
            let from: usize = at;
            let (keys, to) = self.keys_from(address, at);
            at = to;
            proof {
                self.lemma_run(address, from as int, at as int, addresses, k as int);
                let run = order.subrange(from as int, at as int);
                assert forall|key: B256| keys@.contains(key) <==> keys_at(
                    self.slots@,
                    address,
                ).contains(key) by {
                    let wanted = SlotKey { address, slot: slot_of(key) };
                    if keys@.contains(key) {
                        let l = keys@.index_of(key);
                        assert(order[from + l].slot == slot_of(key));
                        assert(order.contains(order[from + l]));
                        assert(order[from + l] == wanted);
                    }
                    if self.slots@.contains(wanted) {
                        let j = order.index_of(wanted);
                        assert(order[j] == wanted);
                        assert(from <= j < at);
                        assert(keys@[j - from] == key);
                    }
                }
                assert(keys@.to_set() =~= keys_at(self.slots@, address));
            }
            items.push(AccessListItem { address, storage_keys: keys });
            k = k + 1;
        }
        let r = AccessList { items };
        proof {
            assert(r@.map_values(|item: (Address, Seq<B256>)| item.0) =~= addresses);
        }
        r
    }

    /// The storage keys of the run of slots at `address` that starts at
    /// position `from`, and the position behind it.
    fn keys_from(&self, address: Address, from: usize) -> (r: (Vec<B256>, usize))
        requires
            from <= self.slots.order().len(),
        ensures
            from <= r.1 <= self.slots.order().len(),
            r.0@.len() == r.1 - from,
            forall|j: int|
                from <= j < r.1 ==> (#[trigger] self.slots.order()[j]).address == address
                    && r.0@[j - from] == key_of(self.slots.order()[j].slot),
            r.1 < self.slots.order().len() ==> self.slots.order()[r.1 as int].address != address,
            ascending(r.0@),
    {
        let n: usize = self.slots.len();
        let mut keys: Vec<B256> = Vec::new();
        let mut at: usize = from;
        let ghost order = self.slots.order();
        while at < n && self.slots.at(at).address == address
            invariant
                from <= at <= n == order.len(),
                order == self.slots.order(),
                ascending(order),
                keys@.len() == at - from,
                forall|j: int|
                    from <= j < at ==> (#[trigger] order[j]).address == address && keys@[j - from]
                        == key_of(order[j].slot),
            decreases n - at,
        {
            let slot: U256 = self.slots.at(at).slot;
            keys.push(B256 { hi: slot.hi, lo: slot.lo });
            at = at + 1;
        }
        proof {
            assert forall|i: int, j: int| 0 <= i < j < keys@.len() implies #[trigger]
                keys@[i].rank() < #[trigger] keys@[j].rank() by {
                let a = order[from + i];
                let b = order[from + j];
                assert(a.rank() < b.rank());
                U256::lemma_bound(a.slot);
                U256::lemma_bound(b.slot);
            }
        }
        (keys, at)
    }

    /// The run of slots at the next address holds all of that address's slots.
    proof fn lemma_run(
        &self,
        address: Address,
        from: int,
        to: int,
        addresses: Seq<Address>,
        k: int,
    )
        requires
            ascending(self.slots.order()),
            ascending(addresses),
            self.slots@ == self.slots.order().to_set(),
            addresses.to_set() == entry_addresses(self@),
            0 <= k < addresses.len(),
            address == addresses[k],
            0 <= from <= to <= self.slots.order().len(),
            forall|j: int|
                0 <= j < self.slots.order().len() ==> (j < from <==> (
                #[trigger] self.slots.order()[j]).address@ < address@),
            forall|j: int| from <= j < to ==> (#[trigger] self.slots.order()[j]).address == address,
            to < self.slots.order().len() ==> self.slots.order()[to].address != address,
        ensures
            forall|j: int|
                0 <= j < self.slots.order().len() ==> ((#[trigger] self.slots.order()[j]).address
                    == address <==> from <= j < to),
            k + 1 < addresses.len() ==> forall|j: int|
                0 <= j < self.slots.order().len() ==> (j < to <==> (
                #[trigger] self.slots.order()[j]).address@ < addresses[k + 1]@),
    {
        let order = self.slots.order();
        assert forall|j: int| 0 <= j < order.len() implies ((#[trigger] order[j]).address == address
            <==> from <= j < to) && (j >= to ==> order[j].address@ > address@) by {
            if j >= to {
                U256::lemma_bound(order[to].slot);
                U256::lemma_bound(order[j].slot);
                if order[to].address@ == address@ {
                    Address::lemma_injective(order[to].address, address);
                }
                if j > to {
                    assert(order[to].rank() < order[j].rank());
                }
            }
        }
        if k + 1 < addresses.len() {
            assert(addresses[k].rank() < addresses[k + 1].rank());
            assert forall|j: int| to <= j < order.len() implies (#[trigger] order[j]).address@
                >= addresses[k + 1]@ by {
                let at = order[j].address;
                assert(order.contains(order[j]));
                assert(self@.slots.contains(SlotKey { address: at, slot: order[j].slot }));
                assert(entry_addresses(self@).contains(at));
                assert(addresses.to_set().contains(at));
                let l = addresses.index_of(at);
                assert(addresses[l] == at);
                if l < k {
                    assert(addresses[l].rank() < addresses[k].rank());
                }
                if l > k + 1 {
                    assert(addresses[k + 1].rank() < addresses[l].rank());
                }
            }
        }
    }
}

/// Nothing is missing from a list exactly when it is covered.
pub proof fn law_covered_means_nothing_missing(list: AccessModel, warmed: AccessModel)
    ensures
        list.subset_of(warmed) <==> list.difference(warmed) == AccessModel::empty(),
{
    if list.subset_of(warmed) {
        assert(list.difference(warmed) =~= AccessModel::empty());
    }
    if list.difference(warmed) == AccessModel::empty() {
        assert forall|a: Address| list.accounts.contains(a) implies warmed.accounts.contains(a) by {
            assert(!list.difference(warmed).accounts.contains(a));
        }
        assert forall|a: B256| list.code_hashes.contains(a) implies warmed.code_hashes.contains(
            a,
        ) by {
            assert(!list.difference(warmed).code_hashes.contains(a));
        }
        assert forall|a: SlotKey| list.slots.contains(a) implies warmed.slots.contains(a) by {
            assert(!list.difference(warmed).slots.contains(a));
        }
        assert forall|a: u64| list.block_numbers.contains(a) implies warmed.block_numbers.contains(
            a,
        ) by {
            assert(!list.difference(warmed).block_numbers.contains(a));
        }
    }
}

/// Warming what was missing covers the list.
pub proof fn law_warming_the_missing_covers(list: AccessModel, warmed: AccessModel)
    ensures
        list.subset_of(warmed.union(list.difference(warmed))),
{
}

/// Extending by the same list twice is extending once, and the order of
/// extending does not matter.
pub proof fn law_extend_is_idempotent_and_commutative(a: AccessModel, b: AccessModel)
    ensures
        a.union(b).union(b) == a.union(b),
        a.union(b) == b.union(a),
{
    assert(a.union(b).union(b) =~= a.union(b));
    assert(a.union(b) =~= b.union(a));
}

} // verus!
