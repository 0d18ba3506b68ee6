//! Ordered sets and maps over small keys, kept as sorted vectors.
//!
//! A lookup is a binary search. What a collection holds is its view, a `Set`
//! or a `Map`; `order` lists the keys as a walk over the collection meets
//! them, in ascending order.

use vstd::prelude::*;

verus! {

/// A copyable key with a total order that its rank gives.
pub trait Key: Copy {
    /// The number by which keys are ordered.
    spec fn rank(self) -> int;

    /// Keys of the same rank are the same key.
    proof fn rank_injective(a: Self, b: Self)
        ensures
            a.rank() == b.rank() ==> a == b,
    ;

    /// Whether this key comes before `other`.
    fn precedes(&self, other: &Self) -> (r: bool)
        ensures
            r == (self.rank() < other.rank()),
    ;
}

/// A value that can be copied out of a shared place.
pub trait Duplicate: Sized {
    /// Whether `other` holds what this value holds.
    spec fn same(&self, other: &Self) -> bool;

    /// A value that holds the same.
    fn duplicate(&self) -> (r: Self)
        ensures
            self.same(&r),
    ;
}

/// Keys in strictly ascending order.
pub open spec fn ascending<K: Key>(keys: Seq<K>) -> bool {
    forall|i: int, j: int|
        0 <= i < j < keys.len() ==> #[trigger] keys[i].rank() < #[trigger] keys[j].rank()
}

/// Ascending keys occur once each.
pub proof fn lemma_ascending_unique<K: Key>(keys: Seq<K>)
    requires
        ascending(keys),
    ensures
        keys.no_duplicates(),
        keys.to_set().finite(),
        keys.to_set().len() == keys.len(),
{
    assert forall|i: int, j: int|
        0 <= i < keys.len() && 0 <= j < keys.len() && i != j implies keys[i] != keys[j] by {
        if i < j {
            assert(keys[i].rank() < keys[j].rank());
        } else {
            assert(keys[j].rank() < keys[i].rank());
        }
    }
    keys.unique_seq_to_set();
    vstd::seq_lib::seq_to_set_is_finite(keys);
}

/// Ascending keys are determined by which keys they are.
pub proof fn lemma_ascending_determined<K: Key>(a: Seq<K>, b: Seq<K>)
    requires
        ascending(a),
        ascending(b),
        a.to_set() == b.to_set(),
    ensures
        a == b,
    decreases a.len(),
{
    lemma_ascending_unique(a);
    lemma_ascending_unique(b);
    if a.len() > 0 {
        let x = a.last();
        let y = b.last();
        assert(a[a.len() - 1] == x && b[b.len() - 1] == y);
        assert(a.to_set().contains(x));
        assert(b.to_set().contains(y));
        assert(b.contains(x));
        assert(a.contains(y));
        let i = b.index_of(x);
        let j = a.index_of(y);
        if i < b.len() - 1 {
            assert(b[i].rank() < b[b.len() - 1].rank());
            if j < a.len() - 1 {
                assert(a[j].rank() < a[a.len() - 1].rank());
            }
        }
        assert(x == y);
        let less_a = a.drop_last();
        let less_b = b.drop_last();
        assert forall|k: K| less_a.contains(k) <==> less_b.contains(k) by {
            if less_a.contains(k) {
                let m = less_a.index_of(k);
                assert(a[m] == k);
                assert(a.to_set().contains(k));
                assert(b.contains(k));
                let l = b.index_of(k);
                assert(a[m].rank() < a[a.len() - 1].rank());
                assert(l < b.len() - 1);
                assert(less_b[l] == k);
            }
            if less_b.contains(k) {
                let m = less_b.index_of(k);
                assert(b[m] == k);
                assert(b.to_set().contains(k));
                assert(a.contains(k));
                let l = a.index_of(k);
                assert(b[m].rank() < b[b.len() - 1].rank());
                assert(l < a.len() - 1);
                assert(less_a[l] == k);
            }
        }
        assert(less_a.to_set() =~= less_b.to_set());
        lemma_ascending_determined(less_a, less_b);
        assert(a =~= less_a.push(x));
        assert(b =~= less_b.push(y));
    }
}

/// The members of a finite set in ascending order.
pub open spec fn in_order<K: Key>(set: Set<K>) -> Seq<K> {
    choose|keys: Seq<K>| ascending(keys) && keys.to_set() == set
}

/// Ascending keys are the members of their set in order.
pub proof fn lemma_in_order<K: Key>(keys: Seq<K>)
    requires
        ascending(keys),
    ensures
        in_order(keys.to_set()) == keys,
{
    let chosen = in_order(keys.to_set());
    assert(ascending(chosen) && chosen.to_set() == keys.to_set());
    lemma_ascending_determined(chosen, keys);
}

/// Ascending keys with one more key in its place.
proof fn lemma_place<K: Key>(keys: Seq<K>, key: K) -> (placed: Seq<K>)
    requires
        ascending(keys),
        !keys.contains(key),
    ensures
        ascending(placed),
        placed.to_set() == keys.to_set().insert(key),
    decreases keys.len(),
{
    if keys.len() == 0 {
        let placed = seq![key];
        assert(placed[0] == key);
        assert(placed.to_set() =~= keys.to_set().insert(key));
        placed
    } else {
        let last = keys.last();
        let less = keys.drop_last();
        assert(keys =~= less.push(last));
        if last.rank() < key.rank() {
            let placed = keys.push(key);
            assert forall|i: int, j: int| 0 <= i < j < placed.len() implies
                #[trigger] placed[i].rank() < #[trigger] placed[j].rank() by {
                if i < keys.len() - 1 {
                    assert(keys[i].rank() < keys[keys.len() - 1].rank());
                }
            }
            assert forall|k: K| placed.contains(k) <==> (keys.contains(k) || k == key) by {
                if keys.contains(k) {
                    assert(placed[keys.index_of(k)] == k);
                }
                if k == key {
                    assert(placed[placed.len() - 1] == k);
                }
            }
            assert(placed.to_set() =~= keys.to_set().insert(key));
            placed
        } else {
            assert(keys[keys.len() - 1] == last);
            if last.rank() == key.rank() {
                K::rank_injective(last, key);
            }
            assert forall|k: K| less.contains(k) implies keys.contains(k) by {
                assert(keys[less.index_of(k)] == k);
            }
            let rest = lemma_place(less, key);
            let placed = rest.push(last);
            assert forall|i: int, j: int| 0 <= i < j < placed.len() implies
                #[trigger] placed[i].rank() < #[trigger] placed[j].rank() by {
                if j == rest.len() {
                    assert(rest.to_set().contains(rest[i]));
                    if rest[i] != key {
                        assert(less.to_set().contains(rest[i]));
                        assert(keys[less.index_of(rest[i])].rank() < keys[keys.len() - 1].rank());
                    }
                }
            }
            assert forall|k: K| placed.contains(k) <==> (keys.contains(k) || k == key) by {
                if placed.contains(k) {
                    let i = placed.index_of(k);
                    if i < rest.len() {
                        assert(rest.to_set().contains(k));
                        assert(k == key || less.to_set().contains(k));
                    }
                }
                if keys.contains(k) || k == key {
                    if k == last {
                        assert(placed[rest.len() as int] == k);
                    } else {
                        if keys.contains(k) {
                            assert(less[keys.index_of(k)] == k);
                            assert(less.to_set().contains(k));
                        }
                        assert(rest.to_set().contains(k));
                        assert(placed[rest.index_of(k)] == k);
                    }
                }
            }
            assert(placed.to_set() =~= keys.to_set().insert(key));
            placed
        }
    }
}

/// Every finite set of keys has its members in order.
pub proof fn lemma_in_order_lists<K: Key>(set: Set<K>)
    requires
        set.finite(),
    ensures
        ascending(in_order(set)),
        in_order(set).to_set() == set,
        in_order(set).no_duplicates(),
    decreases set.len(),
{
    let keys: Seq<K> = if set.len() == 0 {
        assert(Seq::<K>::empty().to_set() =~= set);
        Seq::empty()
    } else {
        let key = set.choose();
        lemma_in_order_lists(set.remove(key));
        let rest = in_order(set.remove(key));
        if rest.contains(key) {
            assert(rest.to_set().contains(key));
        }
        let placed = lemma_place(rest, key);
        assert(placed.to_set() =~= set);
        placed
    };
    assert(ascending(keys) && keys.to_set() == set);
    lemma_ascending_unique(in_order(set));
}

/// A set of keys.
pub struct SortedSet<K: Key> {
    items: Vec<K>,
}

impl<K: Key> View for SortedSet<K> {
    type V = Set<K>;

    closed spec fn view(&self) -> Set<K> {
        self.items@.to_set()
    }
}

impl<K: Key> SortedSet<K> {
    #[verifier::type_invariant]
    spec fn inv(self) -> bool {
        ascending(self.items@)
    }

    /// The members in ascending order.
    pub closed spec fn order(self) -> Seq<K> {
        self.items@
    }

    /// The empty set.
    pub fn new() -> (r: Self)
        ensures
            r@ == Set::<K>::empty(),
    {
        let r = SortedSet { items: Vec::new() };
        assert(r@ =~= Set::<K>::empty());
        r
    }

    /// The number of members. The members are listed by `order`, each once.
    pub fn len(&self) -> (n: usize)
        ensures
            n == self@.len(),
            n == self.order().len(),
            self@.finite(),
            self@ == self.order().to_set(),
            ascending(self.order()),
            self.order().no_duplicates(),
    {
        proof {
            use_type_invariant(self);
            lemma_ascending_unique(self.items@);
        }
        self.items.len()
    }

    /// Whether there is no member.
    pub fn is_empty(&self) -> (r: bool)
        ensures
            r == (self@ == Set::<K>::empty()),
    {
        let r: bool = self.items.len() == 0;
        proof {
            if self.items@.len() > 0 {
                assert(self@.contains(self.items@[0]));
            } else {
                assert(self@ =~= Set::<K>::empty());
            }
        }
        r
    }

    /// The member at a position of the ascending order.
    pub fn at(&self, i: usize) -> (r: K)
        requires
            i < self.order().len(),
        ensures
            r == self.order()[i as int],
            self@.contains(r),
    {
        let r: K = self.items[i];
        assert(self.items@.contains(r));
        r
    }

    /// Where `key` is, or where it would go.
    fn find(&self, key: &K) -> (r: (bool, usize))
        ensures
            r.1 <= self.items@.len(),
            r.0 == self@.contains(*key),
            r.0 ==> r.1 < self.items@.len() && self.items@[r.1 as int] == *key,
            forall|i: int| 0 <= i < r.1 ==> (#[trigger] self.items@[i]).rank() < key.rank(),
            !r.0 ==> forall|i: int|
                r.1 <= i < self.items@.len() ==> key.rank() < (#[trigger] self.items@[i]).rank(),
    {
        proof {
            use_type_invariant(self);
        }
        let mut lo: usize = 0;
        let mut hi: usize = self.items.len();
        while lo < hi
            invariant
                lo <= hi <= self.items@.len(),
                ascending(self.items@),
                forall|i: int| 0 <= i < lo ==> (#[trigger] self.items@[i]).rank() < key.rank(),
                forall|i: int|
                    hi <= i < self.items@.len() ==> key.rank() <= (
                    #[trigger] self.items@[i]).rank(),
            decreases hi - lo,
        {
            let mid: usize = lo + (hi - lo) / 2;
            if self.items[mid].precedes(key) {
                lo = mid + 1;
            } else {
                hi = mid;
            }
        }
        let found: bool = lo < self.items.len() && !key.precedes(&self.items[lo]);
        proof {
            if lo < self.items@.len() {
                K::rank_injective(self.items@[lo as int], *key);
            }
            if found {
                assert(self.items@.contains(*key));
            } else if self.items@.contains(*key) {
                let i = choose|i: int| 0 <= i < self.items@.len() && self.items@[i] == *key;
                assert(self.items@[i].rank() == key.rank());
                assert(i >= lo);
                if i > lo {
                    assert(self.items@[lo as int].rank() < self.items@[i].rank());
                }
            }
            if !found {
                assert forall|i: int| lo <= i < self.items@.len() implies key.rank() < (
                #[trigger] self.items@[i]).rank() by {
                    if i > lo {
                        assert(self.items@[lo as int].rank() < self.items@[i].rank());
                    }
                }
            }
        }
        (found, lo)
    }

    /// Whether `key` is a member.
    pub fn contains(&self, key: &K) -> (r: bool)
        ensures
            r == self@.contains(*key),
    {
        self.find(key).0
    }

    /// Adds `key`; the result says whether it was new.
    pub fn insert(&mut self, key: K) -> (r: bool)
        ensures
            final(self)@ == old(self)@.insert(key),
            r == !old(self)@.contains(key),
    {
        proof {
            use_type_invariant(&*self);
        }
        let (found, i) = self.find(&key);
        if found {
            assert(self@ =~= old(self)@.insert(key));
            return false;
        }
        let ghost before = self.items@;
        let mut items: Vec<K> = Vec::new();
        std::mem::swap(&mut items, &mut self.items);
        items.insert(i, key);
        proof {
            assert(ascending(items@));
            assert forall|k: K| items@.contains(k) <==> (before.contains(k) || k == key) by {
                if before.contains(k) {
                    let j = before.index_of(k);
                    if j < i {
                        assert(items@[j] == k);
                    } else {
                        assert(items@[j + 1] == k);
                    }
                }
                if k == key {
                    assert(items@[i as int] == k);
                }
                if items@.contains(k) {
                    let j = items@.index_of(k);
                    if j < i {
                        assert(before[j] == k);
                    } else if j > i {
                        assert(before[j - 1] == k);
                    }
                }
            }
        }
        self.items = items;
        assert(self@ =~= old(self)@.insert(key));
        true
    }

    /// Takes `key` out; the result says whether it was a member.
    pub fn remove(&mut self, key: &K) -> (r: bool)
        ensures
            final(self)@ == old(self)@.remove(*key),
            r == old(self)@.contains(*key),
    {
        proof {
            use_type_invariant(&*self);
        }
        let (found, i) = self.find(key);
        if !found {
            assert(self@ =~= old(self)@.remove(*key));
            return false;
        }
        let ghost before = self.items@;
        let mut items: Vec<K> = Vec::new();
        std::mem::swap(&mut items, &mut self.items);
        items.remove(i);
        proof {
            assert(ascending(items@));
            lemma_ascending_unique(before);
            assert forall|k: K| items@.contains(k) <==> (before.contains(k) && k != *key) by {
                if before.contains(k) && k != *key {
                    let j = before.index_of(k);
                    if j < i {
                        assert(items@[j] == k);
                    } else {
                        assert(items@[j - 1] == k);
                    }
                }
                if items@.contains(k) {
                    let j = items@.index_of(k);
                    if j < i {
                        assert(before[j] == k);
                    } else {
                        assert(before[j + 1] == k);
                    }
                }
            }
        }
        self.items = items;
        assert(self@ =~= old(self)@.remove(*key));
        true
    }

    /// Adds every member of `other`.
    pub fn extend(&mut self, other: &Self)
        ensures
            final(self)@ == old(self)@.union(other@),
    {
        let n: usize = other.len();
        let mut i: usize = 0;
        while i < n
            invariant
                i <= n == other.order().len(),
                self@ == old(self)@.union(other.order().take(i as int).to_set()),
            decreases n - i,
        {
            let key: K = other.at(i);
            self.insert(key);
            proof {
                lemma_take_extend(other.order(), i as int);
                assert(self@ =~= old(self)@.union(other.order().take(i as int + 1).to_set()));
            }
            i = i + 1;
        }
        proof {
            assert(other.order().take(n as int) =~= other.order());
            assert(self@ =~= old(self)@.union(other@));
        }
    }

    /// The members that `other` lacks.
    pub fn difference(&self, other: &Self) -> (r: Self)
        ensures
            r@ == self@.difference(other@),
    {
        let mut r: Self = Self::new();
        let n: usize = self.len();
        let mut i: usize = 0;
        while i < n
            invariant
                i <= n == self.order().len(),
                r@ == self.order().take(i as int).to_set().difference(other@),
            decreases n - i,
        {
            let key: K = self.at(i);
            if !other.contains(&key) {
                r.insert(key);
            }
            proof {
                lemma_take_extend(self.order(), i as int);
                assert(r@ =~= self.order().take(i as int + 1).to_set().difference(other@));
            }
            i = i + 1;
        }
        proof {
            assert(self.order().take(n as int) =~= self.order());
        }
        r
    }

    /// Whether every member is a member of `other`.
    pub fn is_subset(&self, other: &Self) -> (r: bool)
        ensures
            r == self@.subset_of(other@),
    {
        let n: usize = self.len();
        let mut i: usize = 0;
        while i < n
            invariant
                i <= n == self.order().len(),
                self@ == self.order().to_set(),
                forall|j: int| 0 <= j < i ==> other@.contains(#[trigger] self.order()[j]),
            decreases n - i,
        {
            let key: K = self.at(i);
            if !other.contains(&key) {
                return false;
            }
            i = i + 1;
        }
        true
    }

    /// The number of members that `other` has too.
    pub fn shared_count(&self, other: &Self) -> (count: usize)
        ensures
            count == self@.intersect(other@).len(),
            self@.intersect(other@).finite(),
            count <= self@.len(),
    {
        let n: usize = self.len();
        let mut count: usize = 0;
        let mut i: usize = 0;
        let ghost keys = self.order();
        proof {
            assert(keys.take(0).to_set().intersect(other@) =~= Set::<K>::empty());
        }
        while i < n
            invariant
                i <= n == self.order().len(),
                keys == self.order(),
                keys.no_duplicates(),
                count <= i,
                keys.take(i as int).to_set().intersect(other@).finite(),
                count == keys.take(i as int).to_set().intersect(other@).len(),
            decreases n - i,
        {
            let key: K = self.at(i);
            let ghost before = keys.take(i as int).to_set().intersect(other@);
            let ghost after = keys.take(i as int + 1).to_set().intersect(other@);
            proof {
                lemma_take_extend(keys, i as int);
                if keys.take(i as int).contains(key) {
                    let j = keys.take(i as int).index_of(key);
                    assert(keys[j] == keys[i as int]);
                }
            }
            if other.contains(&key) {
                assert(after =~= before.insert(key));
                count = count + 1;
            } else {
                assert(after =~= before);
            }
            i = i + 1;
        }
        proof {
            assert(keys.take(n as int) =~= keys);
            assert(keys.to_set() == self@);
        }
        count
    }

    /// The members in ascending order, as a vector.
    pub fn to_vec(&self) -> (r: Vec<K>)
        ensures
            r@ == self.order(),
            ascending(r@),
            r@.no_duplicates(),
            r@.to_set() == self@,
    {
        let n: usize = self.len();
        let mut r: Vec<K> = Vec::new();
        let mut i: usize = 0;
        while i < n
            invariant
                i <= n == self.order().len(),
                r@ == self.order().take(i as int),
            decreases n - i,
        {
            r.push(self.at(i));
            assert(r@ =~= self.order().take(i as int + 1));
            i = i + 1;
        }
        assert(r@ =~= self.order());
        r
    }

    /// A set with the same members.
    pub fn copy(&self) -> (r: Self)
        ensures
            r@ == self@,
    {
        let mut r: Self = Self::new();
        r.extend(self);
        assert(r@ =~= self@);
        r
    }
}

/// One more element of a sequence is one more member of its set.
pub proof fn lemma_take_extend<K>(keys: Seq<K>, i: int)
    requires
        0 <= i < keys.len(),
    ensures
        keys.take(i + 1).to_set() == keys.take(i).to_set().insert(keys[i]),
{
    let more = keys.take(i + 1);
    let less = keys.take(i);
    assert forall|k: K| more.contains(k) <==> (less.contains(k) || k == keys[i]) by {
        if less.contains(k) {
            let j = less.index_of(k);
            assert(more[j] == k);
        }
        if k == keys[i] {
            assert(more[i] == k);
        }
        if more.contains(k) {
            let j = more.index_of(k);
            if j < i {
                assert(less[j] == k);
            }
        }
    }
    assert(more.to_set() =~= less.to_set().insert(keys[i]));
}

/// A map from keys to values.
pub struct SortedMap<K: Key, V> {
    keys: Vec<K>,
    values: Vec<V>,
}

/// The map that lists `keys` beside `values`.
pub open spec fn zip_map<K, V>(keys: Seq<K>, values: Seq<V>) -> Map<K, V> {
    Map::new(|k: K| keys.contains(k), |k: K| values[keys.index_of(k)])
}

impl<K: Key, V> View for SortedMap<K, V> {
    type V = Map<K, V>;

    closed spec fn view(&self) -> Map<K, V> {
        zip_map(self.keys@, self.values@)
    }
}

impl<K: Key, V> SortedMap<K, V> {
    #[verifier::type_invariant]
    spec fn inv(self) -> bool {
        ascending(self.keys@) && self.keys@.len() == self.values@.len()
    }

    /// The keys in ascending order.
    pub closed spec fn order(self) -> Seq<K> {
        self.keys@
    }

    /// The empty map.
    pub fn new() -> (r: Self)
        ensures
            r@ == Map::<K, V>::empty(),
    {
        let r = SortedMap { keys: Vec::new(), values: Vec::new() };
        assert(r@ =~= Map::<K, V>::empty());
        r
    }

    /// The number of entries. Their keys are listed by `order`, each once.
    pub fn len(&self) -> (n: usize)
        ensures
            n == self@.len(),
            n == self@.dom().len(),
            n == self.order().len(),
            self@.dom().finite(),
            self@.dom() == self.order().to_set(),
            self.order() == in_order(self@.dom()),
            ascending(self.order()),
            self.order().no_duplicates(),
    {
        proof {
            use_type_invariant(self);
            lemma_ascending_unique(self.keys@);
            assert(self@.dom() =~= self.keys@.to_set());
            lemma_in_order(self.keys@);
        }
        self.keys.len()
    }

    /// Whether there is no entry.
    pub fn is_empty(&self) -> (r: bool)
        ensures
            r == (self@.dom() == Set::<K>::empty()),
            r == (self@ == Map::<K, V>::empty()),
    {
        let r: bool = self.keys.len() == 0;
        proof {
            if self.keys@.len() > 0 {
                assert(self.keys@.contains(self.keys@[0]));
                assert(self@.dom().contains(self.keys@[0]));
            } else {
                assert(self@ =~= Map::<K, V>::empty());
            }
        }
        r
    }

    /// The key at a position of the ascending order.
    pub fn key_at(&self, i: usize) -> (r: K)
        requires
            i < self.order().len(),
        ensures
            r == self.order()[i as int],
            self@.contains_key(r),
    {
        let r: K = self.keys[i];
        assert(self.keys@.contains(r));
        r
    }

    /// The value at a position of the ascending order.
    pub fn value_at(&self, i: usize) -> (r: &V)
        requires
            i < self.order().len(),
        ensures
            self@.contains_key(self.order()[i as int]),
            *r == self@[self.order()[i as int]],
    {
        proof {
            use_type_invariant(self);
            lemma_ascending_unique(self.keys@);
            assert(self.keys@.contains(self.keys@[i as int]));
        }
        &self.values[i]
    }

    /// Where `key` is, or where it would go.
    fn find(&self, key: &K) -> (r: (bool, usize))
        ensures
            r.1 <= self.keys@.len() == self.values@.len(),
            r.0 == self@.contains_key(*key),
            r.0 ==> r.1 < self.keys@.len() && self.keys@[r.1 as int] == *key && self@[*key]
                == self.values@[r.1 as int],
            forall|i: int| 0 <= i < r.1 ==> (#[trigger] self.keys@[i]).rank() < key.rank(),
            !r.0 ==> forall|i: int|
                r.1 <= i < self.keys@.len() ==> key.rank() < (#[trigger] self.keys@[i]).rank(),
    {
        proof {
            use_type_invariant(self);
            lemma_ascending_unique(self.keys@);
        }
        let mut lo: usize = 0;
        let mut hi: usize = self.keys.len();
        while lo < hi
            invariant
                lo <= hi <= self.keys@.len(),
                ascending(self.keys@),
                forall|i: int| 0 <= i < lo ==> (#[trigger] self.keys@[i]).rank() < key.rank(),
                forall|i: int|
                    hi <= i < self.keys@.len() ==> key.rank() <= (
                    #[trigger] self.keys@[i]).rank(),
            decreases hi - lo,
        {
            let mid: usize = lo + (hi - lo) / 2;
            if self.keys[mid].precedes(key) {
                lo = mid + 1;
            } else {
                hi = mid;
            }
        }
        let found: bool = lo < self.keys.len() && !key.precedes(&self.keys[lo]);
        proof {
            if lo < self.keys@.len() {
                K::rank_injective(self.keys@[lo as int], *key);
            }
            if found {
                assert(self.keys@.contains(*key));
            } else if self.keys@.contains(*key) {
                let i = choose|i: int| 0 <= i < self.keys@.len() && self.keys@[i] == *key;
                assert(self.keys@[i].rank() == key.rank());
                assert(i >= lo);
                if i > lo {
                    assert(self.keys@[lo as int].rank() < self.keys@[i].rank());
                }
            }
            if !found {
                assert forall|i: int| lo <= i < self.keys@.len() implies key.rank() < (
                #[trigger] self.keys@[i]).rank() by {
                    if i > lo {
                        assert(self.keys@[lo as int].rank() < self.keys@[i].rank());
                    }
                }
            }
        }
        (found, lo)
    }

    /// Whether there is an entry for `key`.
    pub fn contains_key(&self, key: &K) -> (r: bool)
        ensures
            r == self@.contains_key(*key),
    {
        self.find(key).0
    }

    /// The value of `key`.
    pub fn get(&self, key: &K) -> (r: Option<&V>)
        ensures
            match r {
                Some(value) => self@.contains_key(*key) && *value == self@[*key],
                None => !self@.contains_key(*key),
            },
    {
        let (found, i) = self.find(key);
        if found {
            Some(&self.values[i])
        } else {
            None
        }
    }

    /// Sets the value of `key`.
    pub fn insert(&mut self, key: K, value: V)
        ensures
            final(self)@ == old(self)@.insert(key, value),
    {
        proof {
            use_type_invariant(&*self);
            lemma_ascending_unique(self.keys@);
        }
        let (found, i) = self.find(&key);
        let ghost before_keys = self.keys@;
        let ghost before_values = self.values@;
        let mut fresh: SortedMap<K, V> = SortedMap { keys: Vec::new(), values: Vec::new() };
        std::mem::swap(self, &mut fresh);
        let SortedMap { mut keys, mut values } = fresh;
        if found {
            values.set(i, value);
            proof {
                assert(zip_map(keys@, values@) =~= zip_map(before_keys, before_values).insert(
                    key,
                    value,
                ));
            }
        } else {
            keys.insert(i, key);
            values.insert(i, value);
            proof {
                assert(ascending(keys@));
                lemma_ascending_unique(keys@);
                lemma_zip_insert(before_keys, before_values, i as int, key, value);
            }
        }
        *self = SortedMap { keys, values };
    }

    /// Takes the entry of `key` out.
    pub fn remove(&mut self, key: &K) -> (r: Option<V>)
        ensures
            final(self)@ == old(self)@.remove(*key),
            match r {
                Some(value) => old(self)@.contains_key(*key) && value == old(self)@[*key],
                None => !old(self)@.contains_key(*key),
            },
    {
        proof {
            use_type_invariant(&*self);
            lemma_ascending_unique(self.keys@);
        }
        let (found, i) = self.find(key);
        if !found {
            assert(self@ =~= old(self)@.remove(*key));
            return None;
        }
        let ghost before_keys = self.keys@;
        let ghost before_values = self.values@;
        let mut fresh: SortedMap<K, V> = SortedMap { keys: Vec::new(), values: Vec::new() };
        std::mem::swap(self, &mut fresh);
        let SortedMap { mut keys, mut values } = fresh;
        keys.remove(i);
        let value: V = values.remove(i);
        proof {
            assert(ascending(keys@));
            lemma_ascending_unique(keys@);
            lemma_zip_remove(before_keys, before_values, i as int);
        }
        *self = SortedMap { keys, values };
        Some(value)
    }

    /// Takes every entry out.
    pub fn clear(&mut self)
        ensures
            final(self)@ == Map::<K, V>::empty(),
    {
        *self = Self::new();
    }

    /// The keys, as a set.
    pub fn key_set(&self) -> (r: SortedSet<K>)
        ensures
            r@ == self@.dom(),
    {
        let n: usize = self.len();
        let mut r: SortedSet<K> = SortedSet::new();
        let mut i: usize = 0;
        while i < n
            invariant
                i <= n == self.order().len(),
                r@ == self.order().take(i as int).to_set(),
            decreases n - i,
        {
            r.insert(self.key_at(i));
            proof {
                lemma_take_extend(self.order(), i as int);
            }
            i = i + 1;
        }
        proof {
            assert(self.order().take(n as int) =~= self.order());
        }
        r
    }
}

impl<K: Key, V: Duplicate> SortedMap<K, V> {
    /// A map with the same keys, each with a duplicate of its value.
    pub fn copy(&self) -> (r: Self)
        ensures
            r@.dom() == self@.dom(),
            forall|k: K| #[trigger] self@.contains_key(k) ==> self@[k].same(&r@[k]),
    {
        let n: usize = self.len();
        let mut r: Self = Self::new();
        let mut i: usize = 0;
        let ghost keys = self.order();
        while i < n
            invariant
                i <= n == self.order().len(),
                keys == self.order(),
                keys.no_duplicates(),
                r@.dom() == keys.take(i as int).to_set(),
                forall|k: K| #[trigger] r@.contains_key(k) ==> self@[k].same(&r@[k]),
            decreases n - i,
        {
            let key: K = self.key_at(i);
            let value: V = self.value_at(i).duplicate();
            r.insert(key, value);
            proof {
                lemma_take_extend(keys, i as int);
            }
            i = i + 1;
        }
        proof {
            assert(keys.take(n as int) =~= keys);
        }
        r
    }
}

/// Adding a key at a position adds the key to the map.
proof fn lemma_zip_insert<K: Key, V>(keys: Seq<K>, values: Seq<V>, i: int, key: K, value: V)
    requires
        keys.len() == values.len(),
        0 <= i <= keys.len(),
        keys.no_duplicates(),
        !keys.contains(key),
        keys.insert(i, key).no_duplicates(),
    ensures
        zip_map(keys.insert(i, key), values.insert(i, value)) == zip_map(keys, values).insert(
            key,
            value,
        ),
{
    let more_keys = keys.insert(i, key);
    let more_values = values.insert(i, value);
    let more = zip_map(more_keys, more_values);
    let want = zip_map(keys, values).insert(key, value);
    assert forall|k: K| more.contains_key(k) <==> want.contains_key(k) by {
        if keys.contains(k) {
            let j = keys.index_of(k);
            if j < i {
                assert(more_keys[j] == k);
            } else {
                assert(more_keys[j + 1] == k);
            }
        }
        if k == key {
            assert(more_keys[i] == k);
        }
        if more_keys.contains(k) {
            let j = more_keys.index_of(k);
            if j < i {
                assert(keys[j] == k);
            } else if j > i {
                assert(keys[j - 1] == k);
            }
        }
    }
    assert forall|k: K| more.contains_key(k) implies more[k] == want[k] by {
        let j = more_keys.index_of(k);
        if j < i {
            assert(keys[j] == k);
            assert(keys.index_of(k) == j);
        } else if j > i {
            assert(keys[j - 1] == k);
            assert(keys.index_of(k) == j - 1);
        }
    }
    assert(more =~= want);
}

/// Taking a position out takes its key out of the map.
proof fn lemma_zip_remove<K: Key, V>(keys: Seq<K>, values: Seq<V>, i: int)
    requires
        keys.len() == values.len(),
        0 <= i < keys.len(),
        keys.no_duplicates(),
    ensures
        zip_map(keys.remove(i), values.remove(i)) == zip_map(keys, values).remove(keys[i]),
{
    let less_keys = keys.remove(i);
    let less_values = values.remove(i);
    let less = zip_map(less_keys, less_values);
    let want = zip_map(keys, values).remove(keys[i]);
    assert forall|k: K| less.contains_key(k) <==> want.contains_key(k) by {
        if keys.contains(k) && k != keys[i] {
            let j = keys.index_of(k);
            if j < i {
                assert(less_keys[j] == k);
            } else {
                assert(less_keys[j - 1] == k);
            }
        }
        if less_keys.contains(k) {
            let j = less_keys.index_of(k);
            if j < i {
                assert(keys[j] == k);
            } else {
                assert(keys[j + 1] == k);
            }
        }
    }
    assert forall|k: K| less.contains_key(k) implies less[k] == want[k] by {
        let j = less_keys.index_of(k);
        if j < i {
            assert(keys[j] == k);
            assert(keys.index_of(k) == j);
        } else {
            assert(keys[j + 1] == k);
            assert(keys.index_of(k) == j + 1);
        }
    }
    assert(less =~= want);
}

} // verus!
