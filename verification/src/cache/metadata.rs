//! What to keep of persisted state, and data that never changes.

use crate::cache::account::SlotMap;
use crate::cache::layers::storage_model;
use crate::collections::{lemma_take_extend, Duplicate, SortedMap, SortedSet};
use crate::primitives::{Address, U256};
use vstd::prelude::*;

verus! {

/// The kind of an immutable-data file.
pub const IMMUTABLE_CACHE_MAGIC: [u8; 8] = [0x45, 0x46, 0x43, 0x4d, 0x45, 0x54, 0x41, 0x00];

/// The version of an immutable-data file.
pub const IMMUTABLE_CACHE_VERSION: u32 = 2;

impl Duplicate for u8 {
    open spec fn same(&self, other: &Self) -> bool {
        *self == *other
    }

    fn duplicate(&self) -> (r: Self) {
        *self
    }
}

/// On-chain data that never changes.
pub struct ImmutableDataCache {
    /// The decimals of tokens.
    pub token_decimals: SortedMap<Address, u8>,
}

impl View for ImmutableDataCache {
    type V = Map<Address, u8>;

    open spec fn view(&self) -> Map<Address, u8> {
        self.token_decimals@
    }
}

impl Default for ImmutableDataCache {
    fn default() -> (r: Self)
        ensures
            r@ == Map::<Address, u8>::empty(),
    {
        ImmutableDataCache { token_decimals: SortedMap::new() }
    }
}

impl ImmutableDataCache {
    /// The decimals of a token, if known.
    pub fn get_token_decimals(&self, token: Address) -> (r: Option<u8>)
        ensures
            r == crate::cache::layers::lookup(self@, token),
    {
        match self.token_decimals.get(&token) {
            Some(decimals) => Some(*decimals),
            None => None,
        }
    }

    /// Notes the decimals of a token.
    pub fn set_token_decimals(&mut self, token: Address, decimals: u8)
        ensures
            final(self)@ == old(self)@.insert(token, decimals),
    {
        self.token_decimals.insert(token, decimals);
    }

    /// Whether nothing is known.
    pub fn is_empty(&self) -> (r: bool)
        ensures
            r == (self@ == Map::<Address, u8>::empty()),
    {
        let r: bool = self.token_decimals.is_empty();
        assert(r ==> self@ =~= Map::empty());
        r
    }

    /// How many tokens are known.
    pub fn len(&self) -> (r: usize)
        ensures
            r == self@.len(),
    {
        self.token_decimals.len()
    }

    /// A copy of the decimals.
    pub fn copy_decimals(&self) -> (r: SortedMap<Address, u8>)
        ensures
            r@ == self@,
    {
        let r = self.token_decimals.copy();
        proof {
            assert forall|a: Address| #[trigger] self@.contains_key(a) implies self@[a]
                == r@[a] by {
                assert(self.token_decimals@[a].same(&r@[a]));
            }
            assert(r@ =~= self@);
        }
        r
    }
}

/// Where persisted state lies, and what of its storage is kept on loading.
pub struct CacheConfig {
    /// The directory of all cache files.
    pub cache_dir: String,
    /// The chain.
    pub chain_id: u64,
    /// Accounts whose storage is kept.
    pub maintain_addresses: SortedSet<Address>,
    /// Accounts of whose storage only these slots are kept.
    pub maintain_slots: SortedMap<Address, SortedSet<U256>>,
}

/// What is kept of the slots of one account.
pub open spec fn kept_slots(
    slots: Map<U256, U256>,
    maintain_slots: Map<Address, SortedSet<U256>>,
    address: Address,
) -> Map<U256, U256> {
    if maintain_slots.contains_key(address) {
        slots.restrict(maintain_slots[address]@)
    } else {
        slots
    }
}

/// What is kept of storage: everything where nothing is named, else the accounts
/// that are named, of some of them only the slots that are named.
pub open spec fn kept_storage(
    storage: Map<Address, Map<U256, U256>>,
    maintain_addresses: Set<Address>,
    maintain_slots: Map<Address, SortedSet<U256>>,
) -> Map<Address, Map<U256, U256>> {
    if maintain_addresses == Set::<Address>::empty() && maintain_slots.dom() == Set::<
        Address,
    >::empty() {
        storage
    } else {
        Map::new(
            |a: Address|
                storage.contains_key(a) && (maintain_addresses.contains(a)
                    || maintain_slots.contains_key(a)),
            |a: Address| kept_slots(storage[a], maintain_slots, a),
        )
    }
}

/// The slots that are allowed.
fn retain_slots(slots: &SlotMap, allowed: &SortedSet<U256>) -> (r: SlotMap)
    ensures
        r@ == slots@.restrict(allowed@),
{
    let mut kept: SlotMap = SortedMap::new();
    let n: usize = slots.len();
    let ghost order = slots.order();
    let mut i: usize = 0;
    assert(kept@ =~= slots@.restrict(allowed@.intersect(order.take(0).to_set())));
    while i < n
        invariant
            i <= n == order.len(),
            order == slots.order(),
            order.to_set() == slots@.dom(),
            kept@ == slots@.restrict(allowed@.intersect(order.take(i as int).to_set())),
        decreases n - i,
    {
        let slot: U256 = slots.key_at(i);
        let ghost before = kept@;
        proof {
            lemma_take_extend(order, i as int);
            assert(order.to_set().contains(slot));
        }
        if allowed.contains(&slot) {
            kept.insert(slot, *slots.value_at(i));
        }
        assert(kept@ =~= slots@.restrict(allowed@.intersect(order.take(i as int + 1).to_set())));
        i = i + 1;
    }
    assert(order.take(n as int) =~= order);
    assert(kept@ =~= slots@.restrict(allowed@));
    kept
}

impl CacheConfig {
    /// A configuration.
    pub fn new(
        cache_dir: String,
        chain_id: u64,
        maintain_addresses: SortedSet<Address>,
        maintain_slots: SortedMap<Address, SortedSet<U256>>,
    ) -> (r: Self)
        ensures
            r == (CacheConfig { cache_dir, chain_id, maintain_addresses, maintain_slots }),
    {
        CacheConfig { cache_dir, chain_id, maintain_addresses, maintain_slots }
    }

    /// What is kept of loaded storage.
    pub fn filter_storage(&self, storage: SortedMap<Address, SlotMap>) -> (r: SortedMap<
        Address,
        SlotMap,
    >)
        ensures
            storage_model(r@) == kept_storage(
                storage_model(storage@),
                self.maintain_addresses@,
                self.maintain_slots@,
            ),
    {
        if self.maintain_addresses.is_empty() && self.maintain_slots.is_empty() {
            proof {
                assert(self.maintain_slots@.dom() =~= Set::empty());
            }
            return storage;
        }
        let ghost model = storage_model(storage@);
        let ghost maintained = self.maintain_addresses@.union(self.maintain_slots@.dom());
        proof {
            if self.maintain_addresses@ == Set::<Address>::empty() {
                assert(self.maintain_slots@.dom() != Set::<Address>::empty());
            }
        }
        let mut kept: SortedMap<Address, SlotMap> = SortedMap::new();
        let n: usize = storage.len();
        let ghost order = storage.order();
        let mut i: usize = 0;
        while i < n
            invariant
                i <= n == order.len(),
                order == storage.order(),
                order.to_set() == storage@.dom(),
                maintained == self.maintain_addresses@.union(self.maintain_slots@.dom()),
                forall|a: Address| #[trigger]
                    kept@.contains_key(a) <==> order.take(i as int).to_set().contains(a)
                        && maintained.contains(a),
                forall|a: Address| #[trigger]
                    kept@.contains_key(a) ==> kept@[a]@ == kept_slots(
                        storage@[a]@,
                        self.maintain_slots@,
                        a,
                    ),
            decreases n - i,
        {
            let address: Address = storage.key_at(i);
            let slots: &SlotMap = storage.value_at(i);
            proof {
                lemma_take_extend(order, i as int);
                assert(order.to_set().contains(address));
            }
            match self.maintain_slots.get(&address) {
                Some(allowed) => {
                    kept.insert(address, retain_slots(slots, allowed));
                },
                None => {
                    if self.maintain_addresses.contains(&address) {
                        kept.insert(address, crate::cache::account::copy_slots(slots));
                    }
                },
            }
            i = i + 1;
        }
        proof {
            assert(order.take(n as int) =~= order);
            assert(storage_model(kept@) =~= kept_storage(
                model,
                self.maintain_addresses@,
                self.maintain_slots@,
            ));
        }
        kept
    }
}

} // verus!
