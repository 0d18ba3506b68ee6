//! Checkpoint files: where they are, in what order they are written, and under
//! what names they are built.

use crate::cache::durable_checkpoint::{
    DurableCheckpointError, DurableCheckpointStore, WriteCoordinator, MAX_TEMP_CREATE_ATTEMPTS,
};
use vstd::prelude::*;
use vstd::string::StringExecFns;

verus! {

/// A part of a path below one that is resolved.
#[derive(Debug, PartialEq, Eq)]
pub enum PathPart {
    /// This directory.
    Here,
    /// The directory above.
    Up,
    /// An entry.
    Down(String),
}

/// The entries of a resolved path with what stands below it folded in.
pub open spec fn folded(resolved: Seq<Seq<char>>, suffix: Seq<PathPart>) -> Seq<Seq<char>>
    decreases suffix.len(),
{
    if suffix.len() == 0 {
        resolved
    } else {
        let before = folded(resolved, suffix.drop_last());
        match suffix.last() {
            PathPart::Here => before,
            PathPart::Up => if before.len() > 0 {
                before.drop_last()
            } else {
                before
            },
            PathPart::Down(name) => before.push(name@),
        }
    }
}

/// What names are.
pub open spec fn names_view(names: Seq<String>) -> Seq<Seq<char>> {
    names.map_values(|name: String| name@)
}

/// The entries of a resolved path with what stands below it folded in: the
/// directory above the root is the root.
pub fn fold_suffix(resolved: Vec<String>, suffix: Vec<PathPart>) -> (r: Vec<String>)
    ensures
        names_view(r@) == folded(names_view(resolved@), suffix@),
{
    let ghost start = names_view(resolved@);
    let mut names: Vec<String> = resolved;
    let mut i: usize = 0;
    assert(suffix@.take(0) =~= Seq::empty());
    while i < suffix.len()
        invariant
            i <= suffix.len(),
            names_view(names@) == folded(start, suffix@.take(i as int)),
        decreases suffix.len() - i,
    {
        assert(suffix@.take(i + 1).drop_last() =~= suffix@.take(i as int));
        let ghost before = names_view(names@);
        match &suffix[i] {
            PathPart::Here => {},
            PathPart::Up => {
                let _ = names.pop();
                assert(before.len() > 0 ==> names_view(names@) =~= before.drop_last());
                assert(before.len() == 0 ==> names_view(names@) =~= before);
            },
            PathPart::Down(name) => {
                names.push(name.clone());
                assert(names_view(names@) =~= before.push(name@));
            },
        }
        i = i + 1;
    }
    assert(suffix@.take(i as int) =~= suffix@);
    names
}

/// The text of a path: the root, then its entries with a separator between them.
pub open spec fn path_text(
    root: Seq<char>,
    separator: Seq<char>,
    names: Seq<Seq<char>>,
) -> Seq<char>
    decreases names.len(),
{
    if names.len() == 0 {
        root
    } else if names.len() == 1 {
        root + names[0]
    } else {
        path_text(root, separator, names.drop_last()) + separator + names.last()
    }
}

/// The text of the path whose resolved part and the suffix below it fold into one.
pub fn folded_path_text(
    root: &str,
    separator: &str,
    resolved: Vec<String>,
    suffix: Vec<PathPart>,
) -> (r: String)
    ensures
        r@ == path_text(root@, separator@, folded(names_view(resolved@), suffix@)),
{
    let names: Vec<String> = fold_suffix(resolved, suffix);
    let ghost all = names_view(names@);
    let mut text: String = root.to_owned();
    let n: usize = names.len();
    let mut i: usize = 0;
    assert(all.take(0) =~= Seq::empty());
    while i < n
        invariant
            i <= n == names@.len(),
            all == names_view(names@),
            text@ == path_text(root@, separator@, all.take(i as int)),
        decreases n - i,
    {
        let ghost more = all.take(i as int + 1);
        proof {
            assert(more.drop_last() =~= all.take(i as int));
            assert(more.last() == names@[i as int]@);
        }
        if i > 0 {
            text.append(separator);
        }
        text.append(names[i].as_str());
        i = i + 1;
    }
    assert(all.take(n as int) =~= all);
    text
}

/// Folding goes part by part.
proof fn lemma_folded_concat(
    resolved: Seq<Seq<char>>,
    first: Seq<PathPart>,
    second: Seq<PathPart>,
)
    ensures
        folded(resolved, first + second) == folded(folded(resolved, first), second),
    decreases second.len(),
{
    let all = first + second;
    if second.len() == 0 {
        assert(all =~= first);
    } else {
        assert(all.drop_last() =~= first + second.drop_last());
        lemma_folded_concat(resolved, first, second.drop_last());
    }
}

/// A step that stays where it is changes no path.
pub proof fn law_staying_changes_no_path(
    resolved: Seq<Seq<char>>,
    before: Seq<PathPart>,
    after: Seq<PathPart>,
)
    ensures
        folded(resolved, before + seq![PathPart::Here] + after) == folded(resolved, before + after),
{
    let stay = seq![PathPart::Here];
    lemma_folded_concat(resolved, before + stay, after);
    lemma_folded_concat(resolved, before, stay);
    lemma_folded_concat(resolved, before, after);
    let reached = folded(resolved, before);
    assert(stay.drop_last() =~= Seq::empty());
    assert(folded(reached, stay.drop_last()) == reached);
}

/// Going down and up again changes no path.
pub proof fn law_going_down_and_up_changes_no_path(
    resolved: Seq<Seq<char>>,
    before: Seq<PathPart>,
    name: String,
    after: Seq<PathPart>,
)
    ensures
        folded(resolved, before + seq![PathPart::Down(name), PathPart::Up] + after) == folded(
            resolved,
            before + after,
        ),
{
    let detour = seq![PathPart::Down(name), PathPart::Up];
    lemma_folded_concat(resolved, before + detour, after);
    lemma_folded_concat(resolved, before, detour);
    lemma_folded_concat(resolved, before, after);
    let reached = folded(resolved, before);
    let down = detour.drop_last();
    assert(down =~= seq![PathPart::Down(name)]);
    assert(down.drop_last() =~= Seq::empty());
    assert(folded(reached, down.drop_last()) == reached);
    assert(folded(reached, down) == reached.push(name@));
    assert(folded(reached, detour) =~= reached);
}

/// A folded path folds to itself.
pub proof fn law_folding_twice_is_folding_once(
    resolved: Seq<Seq<char>>,
    suffix: Seq<PathPart>,
    plain: Seq<PathPart>,
)
    requires
        plain.len() == folded(resolved, suffix).len(),
        forall|i: int|
            0 <= i < plain.len() ==> (#[trigger] plain[i] matches PathPart::Down(name) && name@
                == folded(resolved, suffix)[i]),
    ensures
        folded(Seq::empty(), plain) == folded(resolved, suffix),
{
    lemma_entries_fold_to_themselves(Seq::empty(), folded(resolved, suffix), plain);
    assert(Seq::empty() + folded(resolved, suffix) =~= folded(resolved, suffix));
}

/// Directories that are missing do not change a path once they are created: a
/// suffix below the directory that was resolved folds to the same as what is left
/// of it below the directories created.
pub proof fn law_creating_directories_changes_no_path(
    resolved: Seq<Seq<char>>,
    names: Seq<Seq<char>>,
    missing: Seq<PathPart>,
    rest: Seq<PathPart>,
)
    requires
        missing.len() == names.len(),
        forall|i: int|
            0 <= i < missing.len() ==> (#[trigger] missing[i] matches PathPart::Down(name) && name@
                == names[i]),
    ensures
        folded(resolved, missing + rest) == folded(resolved + names, rest),
{
    lemma_folded_concat(resolved, missing, rest);
    lemma_entries_fold_to_themselves(resolved, names, missing);
}

/// Entries alone are added as they are.
proof fn lemma_entries_fold_to_themselves(
    resolved: Seq<Seq<char>>,
    names: Seq<Seq<char>>,
    plain: Seq<PathPart>,
)
    requires
        plain.len() == names.len(),
        forall|i: int|
            0 <= i < plain.len() ==> (#[trigger] plain[i] matches PathPart::Down(name) && name@
                == names[i]),
    ensures
        folded(resolved, plain) == resolved + names,
    decreases plain.len(),
{
    if plain.len() > 0 {
        lemma_entries_fold_to_themselves(resolved, names.drop_last(), plain.drop_last());
        let last = plain[plain.len() - 1];
        assert((resolved + names.drop_last()).push(names.last()) =~= resolved + names);
    } else {
        assert(resolved + names =~= resolved);
    }
}

/// A path that ends in an entry ends in it as it is named, below what the rest
/// folds to, and starts at the root.
pub proof fn law_paths_end_in_their_entry(
    root: Seq<char>,
    separator: Seq<char>,
    resolved: Seq<Seq<char>>,
    suffix: Seq<PathPart>,
    name: String,
)
    ensures
        folded(resolved, suffix.push(PathPart::Down(name))) == folded(resolved, suffix).push(name@),
        ({
            let path = path_text(
                root,
                separator,
                folded(resolved, suffix.push(PathPart::Down(name))),
            );
            &&& root.is_prefix_of(path)
            &&& name@.is_suffix_of(path)
        }),
{
    let all = suffix.push(PathPart::Down(name));
    assert(all.drop_last() =~= suffix);
    let parent = folded(resolved, suffix);
    let names = parent.push(name@);
    lemma_path_starts_at_the_root(root, separator, names);
    let path = path_text(root, separator, names);
    assert(names.drop_last() =~= parent);
    if names.len() == 1 {
        assert(path =~= root + name@);
    }
    assert(path.subrange(path.len() - name@.len(), path.len() as int) =~= name@);
}

/// The text of a path starts with the root.
proof fn lemma_path_starts_at_the_root(
    root: Seq<char>,
    separator: Seq<char>,
    names: Seq<Seq<char>>,
)
    ensures
        root.is_prefix_of(path_text(root, separator, names)),
    decreases names.len(),
{
    let path = path_text(root, separator, names);
    if names.len() > 1 {
        lemma_path_starts_at_the_root(root, separator, names.drop_last());
        let before = path_text(root, separator, names.drop_last());
        assert(path.subrange(0, root.len() as int) =~= before.subrange(0, root.len() as int));
    } else {
        assert(path.subrange(0, root.len() as int) =~= root);
    }
}

/// The order of the writes to a file, of which none was asked for where the file
/// is not known yet.
pub open spec fn order_of(
    orders: Map<Seq<char>, WriteCoordinator>,
    path: Seq<char>,
) -> WriteCoordinator {
    if orders.dom().contains(path) {
        orders[path]
    } else {
        WriteCoordinator { latest_generation: 0 }
    }
}

/// The orders once another write to a file was asked for.
pub open spec fn orders_after(orders: Map<Seq<char>, WriteCoordinator>, path: Seq<char>) -> Map<
    Seq<char>,
    WriteCoordinator,
> {
    orders.insert(path, order_of(orders, path).reserved())
}

/// The orders of the writes to files, one for each path.
pub struct WriteOrders {
    entries: Vec<(String, WriteCoordinator)>,
}

impl View for WriteOrders {
    type V = Map<Seq<char>, WriteCoordinator>;

    closed spec fn view(&self) -> Map<Seq<char>, WriteCoordinator> {
        orders_view(self.entries@)
    }
}

/// The orders that a list of entries holds, the last entry of a path counting.
spec fn orders_view(entries: Seq<(String, WriteCoordinator)>) -> Map<Seq<char>, WriteCoordinator>
    decreases entries.len(),
{
    if entries.len() == 0 {
        Map::empty()
    } else {
        orders_view(entries.drop_last()).insert(entries.last().0@, entries.last().1)
    }
}

/// Whether no two entries are of one path.
spec fn paths_differ(entries: Seq<(String, WriteCoordinator)>) -> bool {
    forall|i: int, j: int|
        0 <= i < j < entries.len() ==> (#[trigger] entries[i]).0@ != (#[trigger] entries[j]).0@
}

/// An entry is what the orders hold of its path, and only paths of entries have
/// one.
proof fn lemma_orders_view(entries: Seq<(String, WriteCoordinator)>)
    requires
        paths_differ(entries),
    ensures
        forall|i: int|
            0 <= i < entries.len() ==> orders_view(entries).dom().contains(
                (#[trigger] entries[i]).0@,
            ) && orders_view(entries)[entries[i].0@] == entries[i].1,
        forall|path: Seq<char>| #[trigger]
            orders_view(entries).dom().contains(path) ==> exists|i: int|
                0 <= i < entries.len() && (#[trigger] entries[i]).0@ == path,
    decreases entries.len(),
{
    if entries.len() > 0 {
        let less = entries.drop_last();
        lemma_orders_view(less);
        let n = entries.len() - 1;
        assert forall|i: int| 0 <= i < entries.len() implies orders_view(entries).dom().contains(
            (#[trigger] entries[i]).0@,
        ) && orders_view(entries)[entries[i].0@] == entries[i].1 by {
            if i < n {
                assert(less[i] == entries[i]);
                assert(entries[i].0@ != entries[n].0@);
            }
        }
        assert forall|path: Seq<char>| #[trigger]
            orders_view(entries).dom().contains(path) implies exists|i: int|
            0 <= i < entries.len() && (#[trigger] entries[i]).0@ == path by {
            if path == entries[n].0@ {
                assert(entries[n].0@ == path);
            } else {
                assert(orders_view(less).dom().contains(path));
                let i = choose|i: int| 0 <= i < less.len() && (#[trigger] less[i]).0@ == path;
                assert(entries[i].0@ == path);
            }
        }
    }
}

impl WriteOrders {
    /// Each path has one order.
    pub closed spec fn wf(self) -> bool {
        paths_differ(self.entries@)
    }

    /// No write was asked for.
    pub fn new() -> (r: Self)
        ensures
            r.wf(),
            r@ == Map::<Seq<char>, WriteCoordinator>::empty(),
    {
        WriteOrders { entries: Vec::new() }
    }

    /// Where the entry of a path is, if there is one.
    fn position(&self, path: &String) -> (r: Option<usize>)
        requires
            self.wf(),
        ensures
            match r {
                Some(i) => i < self.entries@.len() && self.entries@[i as int].0@ == path@
                    && self@.dom().contains(path@) && self@[path@] == self.entries@[i as int].1,
                None => !self@.dom().contains(path@) && forall|j: int|
                    0 <= j < self.entries@.len() ==> (#[trigger] self.entries@[j]).0@ != path@,
            },
    {
        proof {
            lemma_orders_view(self.entries@);
        }
        let mut i: usize = 0;
        while i < self.entries.len()
            invariant
                i <= self.entries@.len(),
                self@ == orders_view(self.entries@),
                forall|j: int| 0 <= j < i ==> (#[trigger] self.entries@[j]).0@ != path@,
                forall|j: int|
                    0 <= j < self.entries@.len() ==> self@.dom().contains(
                        (#[trigger] self.entries@[j]).0@,
                    ) && self@[self.entries@[j].0@] == self.entries@[j].1,
            decreases self.entries@.len() - i,
        {
            if self.entries[i].0 == *path {
                return Some(i);
            }
            i = i + 1;
        }
        None
    }

    /// The generation of a new write to the file of a store: one more than the
    /// newest that any store of that file was given.
    pub fn reserve_generation(&mut self, store: &DurableCheckpointStore) -> (r: Result<
        u64,
        DurableCheckpointError,
    >)
        requires
            old(self).wf(),
        ensures
            final(self).wf(),
            ({
                let before = order_of(old(self)@, store.spec_path());
                if before.latest_generation < u64::MAX {
                    &&& final(self)@ == orders_after(old(self)@, store.spec_path())
                    &&& r == Ok::<u64, DurableCheckpointError>(before.reserved().latest_generation)
                } else {
                    &&& final(self)@ == old(self)@
                    &&& r == Err::<u64, DurableCheckpointError>(
                        DurableCheckpointError::GenerationExhausted,
                    )
                }
            }),
    {
        let path: String = store.path().to_owned();
        let ghost before = self.entries@;
        match self.position(&path) {
            Some(i) => {
                let mut order = WriteCoordinator {
                    latest_generation: self.entries[i].1.latest_generation,
                };
                let reserved = order.reserve_generation();
                self.entries.set(i, (path, order));
                proof {
                    let after = self.entries@;
                    assert forall|a: int, b: int| 0 <= a < b < after.len() implies (
                    #[trigger] after[a]).0@ != (#[trigger] after[b]).0@ by {
                        assert(before[a].0@ != before[b].0@);
                    }
                    lemma_orders_view(before);
                    lemma_orders_view(after);
                    let want = orders_view(before).insert(path@, order);
                    assert(after[i as int].0@ == path@);
                    assert forall|p: Seq<char>| orders_view(after).dom().contains(p)
                        == want.dom().contains(p) by {
                        if orders_view(after).dom().contains(p) {
                            let j = choose|j: int|
                                0 <= j < after.len() && (#[trigger] after[j]).0@ == p;
                            assert(before[j].0@ == p);
                        }
                        if orders_view(before).dom().contains(p) {
                            let j = choose|j: int|
                                0 <= j < before.len() && (#[trigger] before[j]).0@ == p;
                            assert(after[j].0@ == p);
                        }
                    }
                    assert forall|p: Seq<char>| want.dom().contains(p) implies orders_view(after)[p]
                        == want[p] by {
                        assert(orders_view(after).dom().contains(p));
                        let j = choose|j: int|
                            0 <= j < after.len() && (#[trigger] after[j]).0@ == p;
                        assert(before[j].0@ == p);
                    }
                    assert(orders_view(after) =~= want);
                    if order.latest_generation == old(self)@[path@].latest_generation {
                        assert(order == old(self)@[path@]);
                        assert(want =~= orders_view(before));
                    }
                }
                reserved
            },
            None => {
                let mut order = WriteCoordinator::new();
                let reserved = order.reserve_generation();
                self.entries.push((path, order));
                proof {
                    assert(self.entries@.drop_last() =~= before);
                }
                reserved
            },
        }
    }

    /// Refuses a write to the file of a store that is not the newest.
    pub fn ensure_newest(&self, store: &DurableCheckpointStore, generation: u64) -> (r: Result<
        (),
        DurableCheckpointError,
    >)
        requires
            self.wf(),
        ensures
            r == if order_of(self@, store.spec_path()).admits(generation) {
                Ok::<(), DurableCheckpointError>(())
            } else {
                Err(
                    DurableCheckpointError::WriteSuperseded {
                        generation,
                        latest: order_of(self@, store.spec_path()).latest_generation,
                    },
                )
            },
    {
        let path: String = store.path().to_owned();
        match self.position(&path) {
            Some(i) => self.entries[i].1.ensure_newest(generation),
            None => WriteCoordinator::new().ensure_newest(generation),
        }
    }

    /// Drops the order of a file that no store is left for.
    pub fn forget(&mut self, path: &String)
        requires
            old(self).wf(),
        ensures
            final(self).wf(),
            final(self)@ == old(self)@.remove(path@),
    {
        let ghost before = self.entries@;
        proof {
            lemma_orders_view(before);
        }
        match self.position(path) {
            Some(i) => {
                let _ = self.entries.remove(i);
                proof {
                    let after = self.entries@;
                    let skip = |j: int| if j < i { j } else { j + 1 };
                    assert forall|j: int| 0 <= j < after.len() implies #[trigger] after[j]
                        == before[skip(j)] by {}
                    assert forall|a: int, b: int| 0 <= a < b < after.len() implies (
                    #[trigger] after[a]).0@ != (#[trigger] after[b]).0@ by {
                        assert(before[skip(a)].0@ != before[skip(b)].0@);
                    }
                    lemma_orders_view(after);
                    let want = orders_view(before).remove(path@);
                    assert forall|p: Seq<char>| orders_view(after).dom().contains(p)
                        == want.dom().contains(p) by {
                        if orders_view(after).dom().contains(p) {
                            let j = choose|j: int|
                                0 <= j < after.len() && (#[trigger] after[j]).0@ == p;
                            assert(before[skip(j)].0@ == p);
                            if p == path@ {
                                let k = skip(j);
                                if k < i {
                                    assert(before[k].0@ != before[i as int].0@);
                                } else {
                                    assert(before[i as int].0@ != before[k].0@);
                                }
                            }
                        }
                        if want.dom().contains(p) {
                            let k = choose|k: int|
                                0 <= k < before.len() && (#[trigger] before[k]).0@ == p;
                            let j = if k < i { k } else { k - 1 };
                            assert(after[j].0@ == p);
                        }
                    }
                    assert forall|p: Seq<char>| want.dom().contains(p) implies orders_view(after)[p]
                        == want[p] by {
                        assert(orders_view(after).dom().contains(p));
                        let j = choose|j: int|
                            0 <= j < after.len() && (#[trigger] after[j]).0@ == p;
                        assert(before[skip(j)].0@ == p);
                    }
                    assert(orders_view(after) =~= want);
                }
            },
            None => {
                assert(self@.remove(path@) =~= self@);
            },
        }
    }
}

/// Stores of one file share one order: two writes that are asked for through
/// either of them have generations in a row, and only the one asked for last is
/// carried out. Other files have orders of their own.
pub proof fn law_stores_of_one_file_share_their_order(
    orders: Map<Seq<char>, WriteCoordinator>,
    first: DurableCheckpointStore,
    second: DurableCheckpointStore,
    other: DurableCheckpointStore,
)
    requires
        first.spec_path() == second.spec_path(),
        other.spec_path() != first.spec_path(),
        order_of(orders, first.spec_path()).latest_generation + 2 <= u64::MAX,
    ensures
        ({
            let once = orders_after(orders, first.spec_path());
            let twice = orders_after(once, second.spec_path());
            let earlier = order_of(once, first.spec_path()).latest_generation;
            let later = order_of(twice, second.spec_path()).latest_generation;
            &&& later == earlier + 1
            &&& !order_of(twice, first.spec_path()).admits(earlier)
            &&& !order_of(twice, second.spec_path()).admits(earlier)
            &&& order_of(twice, first.spec_path()).admits(later)
            &&& order_of(twice, second.spec_path()).admits(later)
            &&& order_of(twice, other.spec_path()) == order_of(orders, other.spec_path())
        }),
{
}

/// Stores of two spellings of one path are of one file.
pub proof fn law_spellings_of_one_path_share_a_file(
    root: Seq<char>,
    separator: Seq<char>,
    resolved: Seq<Seq<char>>,
    before: Seq<PathPart>,
    name: String,
    after: Seq<PathPart>,
    plain: DurableCheckpointStore,
    staying: DurableCheckpointStore,
    roundabout: DurableCheckpointStore,
)
    requires
        plain.spec_path() == path_text(root, separator, folded(resolved, before + after)),
        staying.spec_path() == path_text(
            root,
            separator,
            folded(resolved, before + seq![PathPart::Here] + after),
        ),
        roundabout.spec_path() == path_text(
            root,
            separator,
            folded(resolved, before + seq![PathPart::Down(name), PathPart::Up] + after),
        ),
    ensures
        staying.spec_path() == plain.spec_path(),
        roundabout.spec_path() == plain.spec_path(),
{
    law_staying_changes_no_path(resolved, before, after);
    law_going_down_and_up_changes_no_path(resolved, before, name, after);
}

/// What came of creating a file under a temporary name.
#[derive(Debug, PartialEq, Eq)]
pub enum TempEvent {
    /// The file is there, and no one else has it.
    Created,
    /// The name is taken.
    Exists,
    /// The file could not be created.
    Failed {
        /// The temporary file.
        path: String,
        /// What the file system reported.
        source: String,
    },
}

/// What to do next.
#[derive(Debug, PartialEq, Eq)]
pub enum TempStep {
    /// Write to the file.
    Use,
    /// Try another name.
    Retry,
    /// Give up.
    Fail(DurableCheckpointError),
}

/// The search for a temporary name that is free.
#[derive(Debug, PartialEq, Eq)]
pub struct TempSearch {
    /// How many names were tried.
    pub attempts: usize,
}

impl TempSearch {
    /// Whether another name may be tried.
    pub open spec fn open(self) -> bool {
        self.attempts < MAX_TEMP_CREATE_ATTEMPTS
    }

    /// No name was tried.
    pub fn new() -> (r: Self)
        ensures
            r.attempts == 0,
            r.open(),
    {
        TempSearch { attempts: 0 }
    }

    /// Takes in what came of one more name. A name that is taken leads to another
    /// one until there were too many; any other failure ends the search.
    pub fn record(&mut self, destination: &str, event: TempEvent) -> (r: TempStep)
        requires
            old(self).open(),
        ensures
            final(self).attempts == old(self).attempts + 1,
            match event {
                TempEvent::Created => r is Use,
                TempEvent::Exists => if final(self).open() {
                    r is Retry
                } else {
                    r matches TempStep::Fail(
                        DurableCheckpointError::TemporaryPathExhausted { path, attempts },
                    ) && path@ == destination@ && attempts == MAX_TEMP_CREATE_ATTEMPTS
                },
                TempEvent::Failed { path, source } => r == TempStep::Fail(
                    DurableCheckpointError::Write { path, source },
                ),
            },
    {
        self.attempts = self.attempts + 1;
        match event {
            TempEvent::Created => TempStep::Use,
            TempEvent::Exists => if self.attempts < MAX_TEMP_CREATE_ATTEMPTS {
                TempStep::Retry
            } else {
                TempStep::Fail(
                    DurableCheckpointError::TemporaryPathExhausted {
                        path: destination.to_owned(),
                        attempts: MAX_TEMP_CREATE_ATTEMPTS,
                    },
                )
            },
            TempEvent::Failed { path, source } => TempStep::Fail(
                DurableCheckpointError::Write { path, source },
            ),
        }
    }
}

} // verus!
