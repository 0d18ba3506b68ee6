//! The memoized flatten of the backend that snapshots share.
//!
//! A snapshot rests on an immutable, shared image of layer 2. The image is
//! kept from one snapshot to the next; only accounts that changed meanwhile
//! are folded in again. Writers mark what they change. A lazy fetch, which
//! only ever adds accounts and slots, does not: what it added shows in the
//! number of accounts and slots, and is found when the image is refreshed.

use crate::bytes::share;
use crate::cache::account::{copy_slots, AccountInfo, Bytecode, InfoModel, SlotMap};
use crate::cache::layers::{accounts_model, lookup, Layers, LayersModel};
use crate::collections::{in_order, Duplicate, SortedMap, SortedSet};
use crate::primitives::{Address, B256, U256};
use std::sync::Arc;
use vstd::prelude::*;

verus! {

/// An immutable image of layer 2.
pub struct BaseState {
    /// Accounts.
    pub accounts: SortedMap<Address, AccountInfo>,
    /// Storage, one shared slot map per account.
    pub storage: SortedMap<Address, Arc<SlotMap>>,
    /// Code by its hash.
    pub code_by_hash: SortedMap<B256, Bytecode>,
}

/// What an image holds.
#[verifier::ext_equal]
pub struct BaseModel {
    /// Accounts.
    pub accounts: Map<Address, InfoModel>,
    /// Storage.
    pub storage: Map<Address, Map<U256, U256>>,
    /// Code by its hash.
    pub code_by_hash: Map<B256, Seq<u8>>,
}

/// What shared slot maps hold.
pub open spec fn shared_model(storage: Map<Address, Arc<SlotMap>>) -> Map<
    Address,
    Map<U256, U256>,
> {
    storage.map_values(|slots: Arc<SlotMap>| slots@)
}

/// What a code index holds.
pub open spec fn codes_model(codes: Map<B256, Bytecode>) -> Map<B256, Seq<u8>> {
    codes.map_values(|code: Bytecode| code@)
}

impl View for BaseState {
    type V = BaseModel;

    open spec fn view(&self) -> BaseModel {
        BaseModel {
            accounts: accounts_model(self.accounts@),
            storage: shared_model(self.storage@),
            code_by_hash: codes_model(self.code_by_hash@),
        }
    }
}

/// The code of several accounts by its hash; where two share a hash, the later
/// one's.
pub open spec fn codes_of(accounts: Map<Address, InfoModel>, order: Seq<Address>) -> Map<
    B256,
    Seq<u8>,
>
    decreases order.len(),
{
    if order.len() == 0 {
        Map::empty()
    } else {
        let info = accounts[order.last()];
        let codes = codes_of(accounts, order.drop_last());
        match info.code {
            Some(code) => codes.insert(info.code_hash, code),
            None => codes,
        }
    }
}

/// The code of all accounts by its hash, in the order of their addresses.
pub open spec fn code_index_of(accounts: Map<Address, InfoModel>) -> Map<B256, Seq<u8>> {
    codes_of(accounts, in_order(accounts.dom()))
}

impl LayersModel {
    /// The image of layer 2.
    pub open spec fn image(self) -> BaseModel {
        BaseModel {
            accounts: self.accounts,
            storage: self.storage,
            code_by_hash: code_index_of(self.accounts),
        }
    }
}

impl Duplicate for Arc<SlotMap> {
    open spec fn same(&self, other: &Self) -> bool {
        *self == *other
    }

    fn duplicate(&self) -> (r: Self) {
        share(self)
    }
}

/// The code of accounts by its hash.
pub fn code_index(accounts: &SortedMap<Address, AccountInfo>) -> (r: SortedMap<B256, Bytecode>)
    ensures
        codes_model(r@) == code_index_of(accounts_model(accounts@)),
{
    let mut codes: SortedMap<B256, Bytecode> = SortedMap::new();
    let n: usize = accounts.len();
    let mut i: usize = 0;
    let ghost order = accounts.order();
    let ghost model = accounts_model(accounts@);
    proof {
        assert(codes_model(codes@) =~= Map::empty());
        assert(order.take(0) =~= Seq::<Address>::empty());
        assert(model.dom() =~= accounts@.dom());
    }
    while i < n
        invariant
            i <= n == order.len(),
            order == accounts.order(),
            model == accounts_model(accounts@),
            codes_model(codes@) == codes_of(model, order.take(i as int)),
        decreases n - i,
    {
        let info: &AccountInfo = accounts.value_at(i);
        let ghost before = codes@;
        assert(order.take(i as int + 1).drop_last() =~= order.take(i as int));
        if let Some(code) = &info.code {
            codes.insert(info.code_hash, code.clone());
            assert(codes_model(codes@) =~= codes_model(before).insert(info.code_hash, code@));
        }
        i = i + 1;
    }
    assert(order.take(n as int) =~= order);
    codes
}

/// The image with its bookkeeping.
pub struct BaseMemo {
    /// The image, once one was built.
    pub base: Option<Arc<BaseState>>,
    /// Accounts that were written since.
    pub dirty: SortedSet<Address>,
    /// Whether the image must be built anew.
    pub full_rebuild: bool,
    /// The number of slots per account when the image was built.
    pub lens: SortedMap<Address, usize>,
}

/// Whether an image is that of `layers`, but for accounts that are marked and
/// for accounts and slots that were only added.
pub open spec fn honest_image(
    base: BaseModel,
    lens: Map<Address, usize>,
    dirty: Set<Address>,
    layers: LayersModel,
) -> bool {
    &&& base.code_by_hash == code_index_of(base.accounts)
    &&& lens.dom() == base.storage.dom()
    &&& forall|a: Address| #[trigger]
        base.storage.contains_key(a) ==> base.storage[a].dom().finite() && lens[a]
            == base.storage[a].len()
    &&& forall|a: Address| #[trigger]
        base.accounts.contains_key(a) && !dirty.contains(a) ==> layers.accounts.contains_key(a)
            && layers.accounts[a] == base.accounts[a]
    &&& forall|a: Address| #[trigger]
        base.storage.contains_key(a) && !dirty.contains(a) ==> layers.storage.contains_key(a)
            && base.storage[a].submap_of(layers.storage[a])
}

/// A part of a finite map with as many keys is the whole map.
proof fn lemma_full_submap(part: Map<U256, U256>, whole: Map<U256, U256>)
    requires
        part.submap_of(whole),
        part.dom().finite(),
        whole.dom().finite(),
        part.len() == whole.len(),
    ensures
        part == whole,
{
    vstd::set_lib::lemma_subset_equality(part.dom(), whole.dom());
    assert(part =~= whole);
}

/// Two maps that answer every lookup alike are equal.
pub proof fn lemma_same_lookups<K, V>(a: Map<K, V>, b: Map<K, V>)
    requires
        forall|key: K| #[trigger] lookup(a, key) == lookup(b, key),
    ensures
        a == b,
{
    assert forall|key: K| #[trigger] a.contains_key(key) == b.contains_key(key) by {
        assert(lookup(a, key) == lookup(b, key));
    }
    assert(a.dom() =~= b.dom());
    assert forall|key: K| #[trigger] a.contains_key(key) implies a[key] == b[key] by {
        assert(lookup(a, key) == lookup(b, key));
    }
    assert(a =~= b);
}

impl BaseMemo {
    /// No image yet.
    pub fn new() -> (r: Self)
        ensures
            r.base is None,
            r.dirty@ == Set::<Address>::empty(),
            !r.full_rebuild,
            r.lens@ == Map::<Address, usize>::empty(),
    {
        BaseMemo {
            base: None,
            dirty: SortedSet::new(),
            full_rebuild: false,
            lens: SortedMap::new(),
        }
    }

    /// Whether the image, where it will be reused, can be brought up to date
    /// from what is marked and what was added.
    pub open spec fn honest(self, layers: LayersModel) -> bool {
        self.base is Some && !self.full_rebuild ==> honest_image(
            self.base->0@,
            self.lens@,
            self.dirty@,
            layers,
        )
    }

    /// Marks an account as written.
    pub fn mark_dirty(&mut self, address: Address)
        ensures
            final(self).dirty@ == old(self).dirty@.insert(address),
            final(self).base == old(self).base,
            final(self).full_rebuild == old(self).full_rebuild,
            final(self).lens == old(self).lens,
    {
        self.dirty.insert(address);
    }

    /// Has the image built anew next time.
    pub fn invalidate(&mut self)
        ensures
            final(self).full_rebuild,
            final(self).dirty == old(self).dirty,
            final(self).base == old(self).base,
            final(self).lens == old(self).lens,
    {
        self.full_rebuild = true;
    }

    /// Builds an image of all of layer 2.
    fn build_full(layers: &Layers) -> (r: (BaseState, SortedMap<Address, usize>))
        ensures
            r.0@ == layers@.image(),
            r.1@.dom() == layers@.storage.dom(),
            forall|a: Address| #[trigger]
                layers@.storage.contains_key(a) ==> layers@.storage[a].dom().finite() && r.1@[a]
                    == layers@.storage[a].len(),
    {
        let accounts = layers.copy_accounts();
        let code_by_hash = code_index(&accounts);
        let mut storage: SortedMap<Address, Arc<SlotMap>> = SortedMap::new();
        let mut lens: SortedMap<Address, usize> = SortedMap::new();
        let n: usize = layers.storage.len();
        let ghost order = layers.storage.order();
        let mut i: usize = 0;
        while i < n
            invariant
                i <= n == order.len(),
                order == layers.storage.order(),
                order.to_set() == layers.storage@.dom(),
                storage@.dom() == order.take(i as int).to_set(),
                lens@.dom() == order.take(i as int).to_set(),
                forall|a: Address| #[trigger]
                    storage@.contains_key(a) ==> storage@[a]@ == layers.storage@[a]@
                        && layers.storage@[a]@.dom().finite() && lens@[a]
                        == layers.storage@[a]@.len(),
            decreases n - i,
        {
            let address: Address = layers.storage.key_at(i);
            let slots: SlotMap = copy_slots(layers.storage.value_at(i));
            lens.insert(address, slots.len());
            storage.insert(address, Arc::new(slots));
            proof {
                crate::collections::lemma_take_extend(order, i as int);
            }
            i = i + 1;
        }
        let r = BaseState { accounts, storage, code_by_hash };
        proof {
            assert(order.take(n as int) =~= order);
            assert(layers@.storage.dom() =~= layers.storage@.dom());
            assert forall|a: Address| #[trigger] layers@.storage.contains_key(a) implies
                layers@.storage[a].dom().finite() && lens@[a] == layers@.storage[a].len() by {
                assert(storage@.contains_key(a));
            }
            assert(r@.storage =~= layers@.storage);
            assert(r@ =~= layers@.image());
        }
        (r, lens)
    }

    /// Marks every account that grew without being marked.
    fn mark_grown(&mut self, base: &Arc<BaseState>, layers: &Layers)
        requires
            honest_image(base@, old(self).lens@, old(self).dirty@, layers@),
        ensures
            final(self).base == old(self).base,
            final(self).full_rebuild == old(self).full_rebuild,
            final(self).lens == old(self).lens,
            old(self).dirty@.subset_of(final(self).dirty@),
            forall|a: Address|
                !final(self).dirty@.contains(a) ==> #[trigger] lookup(base@.accounts, a) == lookup(
                    layers@.accounts,
                    a,
                ),
            forall|a: Address|
                !final(self).dirty@.contains(a) ==> #[trigger] lookup(base@.storage, a) == lookup(
                    layers@.storage,
                    a,
                ),
    {
        let n: usize = layers.storage.len();
        let ghost order = layers.storage.order();
        let mut i: usize = 0;
        assert(layers@.storage.dom() =~= layers.storage@.dom());
        assert(layers@.accounts.dom() =~= layers.accounts@.dom());
        while i < n
            invariant
                i <= n == order.len(),
                order == layers.storage.order(),
                honest_image(base@, self.lens@, old(self).dirty@, layers@),
                self.base == old(self).base,
                self.full_rebuild == old(self).full_rebuild,
                self.lens == old(self).lens,
                old(self).dirty@.subset_of(self.dirty@),
                layers@.storage.dom() == layers.storage@.dom(),
                forall|j: int|
                    0 <= j < i && !self.dirty@.contains(#[trigger] order[j])
                        ==> base@.storage.contains_key(order[j]) && base@.storage[order[j]]
                        == layers@.storage[order[j]],
            decreases n - i,
        {
            let address: Address = layers.storage.key_at(i);
            let len: usize = layers.storage.value_at(i).len();
            let unchanged: bool = match self.lens.get(&address) {
                Some(known) => *known == len,
                None => false,
            };
            if !unchanged {
                self.dirty.insert(address);
            } else if !self.dirty.contains(&address) {
                proof {
                    assert(base@.storage.contains_key(address));
                    lemma_full_submap(base@.storage[address], layers@.storage[address]);
                }
            }
            i = i + 1;
        }
        let m: usize = layers.accounts.len();
        let ghost names = layers.accounts.order();
        let mut k: usize = 0;
        let ghost storage_dirty = self.dirty@;
        while k < m
            invariant
                k <= m == names.len(),
                names == layers.accounts.order(),
                self.base == old(self).base,
                self.full_rebuild == old(self).full_rebuild,
                self.lens == old(self).lens,
                storage_dirty.subset_of(self.dirty@),
                forall|j: int|
                    0 <= j < k && !self.dirty@.contains(#[trigger] names[j])
                        ==> base@.accounts.contains_key(names[j]),
            decreases m - k,
        {
            let address: Address = layers.accounts.key_at(k);
            if !base.accounts.contains_key(&address) {
                self.dirty.insert(address);
            }
            k = k + 1;
        }
        proof {
            assert forall|a: Address| !self.dirty@.contains(a) implies #[trigger] lookup(
                base@.accounts,
                a,
            ) == lookup(layers@.accounts, a) by {
                if layers@.accounts.contains_key(a) {
                    assert(names.to_set().contains(a));
                    let j = names.index_of(a);
                    assert(names[j] == a);
                }
            }
            assert forall|a: Address| !self.dirty@.contains(a) implies #[trigger] lookup(
                base@.storage,
                a,
            ) == lookup(layers@.storage, a) by {
                if layers@.storage.contains_key(a) {
                    assert(order.to_set().contains(a));
                    let j = order.index_of(a);
                    assert(order[j] == a);
                }
            }
        }
    }

    /// Folds the marked accounts into a copy of the image.
    fn fold_dirty(&mut self, base: &Arc<BaseState>, layers: &Layers) -> (r: BaseState)
        requires
            honest_image(base@, old(self).lens@, old(self).dirty@, layers@),
            forall|a: Address|
                !old(self).dirty@.contains(a) ==> #[trigger] lookup(base@.accounts, a) == lookup(
                    layers@.accounts,
                    a,
                ),
            forall|a: Address|
                !old(self).dirty@.contains(a) ==> #[trigger] lookup(base@.storage, a) == lookup(
                    layers@.storage,
                    a,
                ),
        ensures
            r@ == layers@.image(),
            final(self).base == old(self).base,
            final(self).full_rebuild == old(self).full_rebuild,
            final(self).dirty == old(self).dirty,
            final(self).lens@.dom() == layers@.storage.dom(),
            forall|a: Address| #[trigger]
                layers@.storage.contains_key(a) ==> layers@.storage[a].dom().finite()
                    && final(self).lens@[a] == layers@.storage[a].len(),
    {
        let mut accounts = base.accounts.copy();
        let mut storage = base.storage.copy();
        proof {
            assert forall|a: Address| #[trigger] base.accounts@.contains_key(a) implies
                base.accounts@[a] == accounts@[a] by {
                assert(base.accounts@[a].same(&accounts@[a]));
            }
            assert(accounts@ =~= base.accounts@);
            assert forall|a: Address| #[trigger] base.storage@.contains_key(a) implies
                base.storage@[a] == storage@[a] by {
                assert(base.storage@[a].same(&storage@[a]));
            }
            assert(storage@ =~= base.storage@);
            assert(base@.storage.dom() =~= base.storage@.dom());
            assert forall|a: Address| #[trigger] base.storage@.contains_key(a) implies
                base.storage@[a]@.dom().finite() && self.lens@[a] == base.storage@[a]@.len() by {
                assert(base@.storage.contains_key(a));
            }
        }
        let n: usize = self.dirty.len();
        let ghost order = self.dirty.order();
        let mut i: usize = 0;
        proof {
            assert(order.skip(0) =~= order);
            assert forall|a: Address| !order.contains(a) implies !self.dirty@.contains(a) by {
                assert(!order.to_set().contains(a));
            }
        }
        while i < n
            invariant
                i <= n == order.len(),
                order == self.dirty.order(),
                order.to_set() == self.dirty@,
                order.no_duplicates(),
                self.base == old(self).base,
                self.full_rebuild == old(self).full_rebuild,
                self.dirty == old(self).dirty,
                self.lens@.dom() == storage@.dom(),
                forall|a: Address| #[trigger]
                    storage@.contains_key(a) ==> storage@[a]@.dom().finite() && self.lens@[a]
                        == storage@[a]@.len(),
                forall|a: Address|
                    !order.skip(i as int).contains(a) ==> #[trigger] lookup(
                        accounts_model(accounts@),
                        a,
                    ) == lookup(layers@.accounts, a),
                forall|a: Address|
                    !order.skip(i as int).contains(a) ==> #[trigger] lookup(
                        shared_model(storage@),
                        a,
                    ) == lookup(layers@.storage, a),
            decreases n - i,
        {
            let address: Address = self.dirty.at(i);
            let ghost accounts_before = accounts@;
            let ghost storage_before = storage@;
            match layers.accounts.get(&address) {
                Some(info) => {
                    accounts.insert(address, info.clone());
                },
                None => {
                    accounts.remove(&address);
                },
            }
            match layers.storage.get(&address) {
                Some(slots) => {
                    let rebuilt: SlotMap = copy_slots(slots);
                    self.lens.insert(address, rebuilt.len());
                    storage.insert(address, Arc::new(rebuilt));
                },
                None => {
                    storage.remove(&address);
                    self.lens.remove(&address);
                },
            }
            proof {
                let left = order.skip(i as int);
                let later = order.skip(i as int + 1);
                assert(left.drop_first() =~= later);
                assert forall|a: Address| !later.contains(a) implies #[trigger] lookup(
                    accounts_model(accounts@),
                    a,
                ) == lookup(layers@.accounts, a) by {
                    if a != address {
                        if left.contains(a) {
                            let j = left.index_of(a);
                            assert(j > 0);
                            assert(later[j - 1] == a);
                        }
                        assert(lookup(accounts_model(accounts@), a) == lookup(
                            accounts_model(accounts_before),
                            a,
                        ));
                    }
                }
                assert forall|a: Address| !later.contains(a) implies #[trigger] lookup(
                    shared_model(storage@),
                    a,
                ) == lookup(layers@.storage, a) by {
                    if a != address {
                        if left.contains(a) {
                            let j = left.index_of(a);
                            assert(j > 0);
                            assert(later[j - 1] == a);
                        }
                        assert(lookup(shared_model(storage@), a) == lookup(
                            shared_model(storage_before),
                            a,
                        ));
                    }
                }
                assert(self.lens@.dom() =~= storage@.dom());
            }
            i = i + 1;
        }
        proof {
            assert(order.skip(n as int).len() == 0);
            lemma_same_lookups(accounts_model(accounts@), layers@.accounts);
            lemma_same_lookups(shared_model(storage@), layers@.storage);
            assert(storage@.dom() =~= layers@.storage.dom());
            assert forall|a: Address| #[trigger] layers@.storage.contains_key(a) implies
                layers@.storage[a].dom().finite() && self.lens@[a] == layers@.storage[a].len() by {
                assert(storage@.contains_key(a));
                assert(shared_model(storage@)[a] == storage@[a]@);
            }
        }
        let code_by_hash = code_index(&accounts);
        let r = BaseState { accounts, storage, code_by_hash };
        assert(r@ =~= layers@.image());
        r
    }

    /// Brings the image up to date: it is then exactly that of layer 2.
    ///
    /// The image is built anew where there is none or where that was asked for.
    /// Else what was added without being marked is found by counting, and only
    /// what is marked by then is folded in; where nothing is, the image stays
    /// the same.
    pub fn refresh(&mut self, layers: &Layers) -> (r: Arc<BaseState>)
        requires
            old(self).honest(layers@),
        ensures
            r@ == layers@.image(),
            final(self).base == Some(r),
            final(self).honest(layers@),
            final(self).dirty@ == Set::<Address>::empty(),
            !final(self).full_rebuild,
    {
        let base: Arc<BaseState> = match &self.base {
            Some(base) if !self.full_rebuild => share(base),
            _ => {
                let (built, lens) = Self::build_full(layers);
                let built: Arc<BaseState> = Arc::new(built);
                self.lens = lens;
                self.base = Some(share(&built));
                self.dirty = SortedSet::new();
                self.full_rebuild = false;
                return built;
            },
        };
        self.mark_grown(&base, layers);
        if self.dirty.is_empty() {
            proof {
                lemma_same_lookups(base@.accounts, layers@.accounts);
                lemma_same_lookups(base@.storage, layers@.storage);
                assert(base@ =~= layers@.image());
            }
            return base;
        }
        proof {
            assert(honest_image(base@, self.lens@, self.dirty@, layers@));
        }
        let folded: Arc<BaseState> = Arc::new(self.fold_dirty(&base, layers));
        self.base = Some(share(&folded));
        self.dirty = SortedSet::new();
        folded
    }
}

/// Writing to layer 2 and marking what was written keeps the image honest.
pub proof fn lemma_marked_write_is_honest(
    memo: BaseMemo,
    before: LayersModel,
    marked: BaseMemo,
    after: LayersModel,
)
    requires
        memo.honest(before),
        marked.base == memo.base,
        marked.lens == memo.lens,
        memo.full_rebuild ==> marked.full_rebuild,
        memo.dirty@.subset_of(marked.dirty@),
        forall|a: Address|
            !marked.dirty@.contains(a) ==> #[trigger] lookup(after.accounts, a) == lookup(
                before.accounts,
                a,
            ),
        forall|a: Address|
            !marked.dirty@.contains(a) ==> #[trigger] lookup(after.storage, a) == lookup(
                before.storage,
                a,
            ),
    ensures
        marked.honest(after),
{
    if memo.base is Some && !marked.full_rebuild {
        let base = memo.base->0@;
        assert(honest_image(base, memo.lens@, memo.dirty@, before));
        assert forall|a: Address| #[trigger]
            base.accounts.contains_key(a) && !marked.dirty@.contains(
                a,
            ) implies after.accounts.contains_key(a) && after.accounts[a] == base.accounts[a] by {
            assert(lookup(after.accounts, a) == lookup(before.accounts, a));
        }
        assert forall|a: Address| #[trigger]
            base.storage.contains_key(a) && !marked.dirty@.contains(
                a,
            ) implies after.storage.contains_key(a) && base.storage[a].submap_of(
            after.storage[a],
        ) by {
            assert(lookup(after.storage, a) == lookup(before.storage, a));
        }
    }
}

/// Adding accounts and slots that were not there keeps the image honest without
/// a mark.
pub proof fn law_growth_needs_no_mark(memo: BaseMemo, before: LayersModel, after: LayersModel)
    requires
        memo.honest(before),
        before.accounts.submap_of(after.accounts),
        forall|a: Address| #[trigger]
            before.storage.contains_key(a) ==> after.storage.contains_key(a)
                && before.storage[a].submap_of(after.storage[a]),
    ensures
        memo.honest(after),
{
    if memo.base is Some && !memo.full_rebuild {
        let base = memo.base->0@;
        assert(honest_image(base, memo.lens@, memo.dirty@, before));
        assert forall|a: Address| #[trigger]
            base.accounts.contains_key(a) && !memo.dirty@.contains(
                a,
            ) implies after.accounts.contains_key(a) && after.accounts[a] == base.accounts[a] by {
            assert(before.accounts.contains_key(a));
            assert(after.accounts.dom().contains(a));
        }
        assert forall|a: Address| #[trigger]
            base.storage.contains_key(a) && !memo.dirty@.contains(
                a,
            ) implies after.storage.contains_key(a) && base.storage[a].submap_of(
            after.storage[a],
        ) by {
            assert(before.storage.contains_key(a));
            assert forall|k: U256| #[trigger]
                base.storage[a].dom().contains(k) implies after.storage[a].dom().contains(k)
                && base.storage[a][k] == after.storage[a][k] by {
                assert(before.storage[a].dom().contains(k));
                assert(after.storage[a].dom().contains(k));
            }
        }
    }
}

} // verus!
