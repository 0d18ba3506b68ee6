//! Splitting slot requests into calls.

use crate::bulk_storage::config::{multicall3_address, BulkCallConfig};
use crate::collections::SortedMap;
use crate::primitives::{Address, U256};
use vstd::prelude::*;

verus! {

/// A target with the slots that are read there.
pub type Piece = (Address, Seq<U256>);

/// One planned `eth_call`.
#[derive(Debug, PartialEq, Eq)]
pub enum CallPlan {
    /// The extractor runs at one target, called directly.
    Single {
        /// The target.
        target: Address,
        /// The slots to read.
        slots: Vec<U256>,
    },
    /// A multicall runs the extractor at several targets.
    Multi {
        /// The targets with their slots.
        targets: Vec<(Address, Vec<U256>)>,
    },
}

/// What a [`CallPlan`] holds.
pub enum PlanModel {
    /// A direct call.
    Single {
        /// The target with its slots.
        piece: Piece,
    },
    /// A multicall.
    Multi {
        /// The targets with their slots.
        pieces: Seq<Piece>,
    },
}

/// What a list of targets holds.
pub open spec fn pieces_of(targets: Seq<(Address, Vec<U256>)>) -> Seq<Piece> {
    targets.map_values(|t: (Address, Vec<U256>)| (t.0, t.1@))
}

impl View for CallPlan {
    type V = PlanModel;

    open spec fn view(&self) -> PlanModel {
        match *self {
            CallPlan::Single { target, slots } => PlanModel::Single { piece: (target, slots@) },
            CallPlan::Multi { targets } => PlanModel::Multi { pieces: pieces_of(targets@) },
        }
    }
}

/// What a list of plans holds.
pub open spec fn plans_of(plans: Seq<CallPlan>) -> Seq<PlanModel> {
    plans.map_values(|p: CallPlan| p@)
}

/// The number of slots of all pieces together.
pub open spec fn slot_total(pieces: Seq<Piece>) -> nat
    decreases pieces.len(),
{
    if pieces.len() == 0 {
        0
    } else {
        slot_total(pieces.drop_last()) + pieces.last().1.len()
    }
}

impl PlanModel {
    /// The targets of the call with their slots.
    pub open spec fn pieces(self) -> Seq<Piece> {
        match self {
            PlanModel::Single { piece } => seq![piece],
            PlanModel::Multi { pieces } => pieces,
        }
    }

    /// The number of slots that the call reads.
    pub open spec fn slot_count(self) -> nat {
        slot_total(self.pieces())
    }
}

impl CallPlan {
    /// The number of slots that the call reads.
    pub fn request_slot_count(&self) -> (r: usize)
        requires
            self@.slot_count() <= usize::MAX,
        ensures
            r == self@.slot_count(),
    {
        match self {
            CallPlan::Single { target, slots } => {
                proof {
                    let pieces = self@.pieces();
                    assert(pieces.drop_last() =~= Seq::<Piece>::empty());
                    assert(slot_total(pieces.drop_last()) == 0);
                }
                slots.len()
            },
            CallPlan::Multi { targets } => {
                let mut total: usize = 0;
                let mut i: usize = 0;
                let n: usize = targets.len();
                let ghost pieces = pieces_of(targets@);
                while i < n
                    invariant
                        i <= n == targets@.len(),
                        pieces == pieces_of(targets@),
                        slot_total(pieces) <= usize::MAX,
                        total == slot_total(pieces.take(i as int)),
                    decreases n - i,
                {
                    proof {
                        lemma_slot_total_take(pieces, i as int);
                        lemma_slot_total_monotone(pieces, i as int + 1);
                    }
                    total = total + targets[i].1.len();
                    i = i + 1;
                }
                assert(pieces.take(n as int) =~= pieces);
                total
            },
        }
    }
}

/// One more piece adds its slots.
proof fn lemma_slot_total_take(pieces: Seq<Piece>, i: int)
    requires
        0 <= i < pieces.len(),
    ensures
        slot_total(pieces.take(i + 1)) == slot_total(pieces.take(i)) + pieces[i].1.len(),
{
    assert(pieces.take(i + 1).drop_last() =~= pieces.take(i));
}

/// The first pieces hold no more slots than all of them.
proof fn lemma_slot_total_monotone(pieces: Seq<Piece>, i: int)
    requires
        0 <= i <= pieces.len(),
    ensures
        slot_total(pieces.take(i)) <= slot_total(pieces),
    decreases pieces.len() - i,
{
    if i < pieces.len() {
        lemma_slot_total_take(pieces, i);
        lemma_slot_total_monotone(pieces, i + 1);
    } else {
        assert(pieces.take(i) =~= pieces);
    }
}

/// The addresses of `requests` in the order in which they first occur.
pub open spec fn first_seen(requests: Seq<(Address, U256)>) -> Seq<Address>
    decreases requests.len(),
{
    if requests.len() == 0 {
        Seq::empty()
    } else {
        let seen = first_seen(requests.drop_last());
        if seen.contains(requests.last().0) {
            seen
        } else {
            seen.push(requests.last().0)
        }
    }
}

/// The slots that `requests` asks of one address, in order.
pub open spec fn slots_for(requests: Seq<(Address, U256)>, address: Address) -> Seq<U256>
    decreases requests.len(),
{
    if requests.len() == 0 {
        Seq::empty()
    } else if requests.last().0 == address {
        slots_for(requests.drop_last(), address).push(requests.last().1)
    } else {
        slots_for(requests.drop_last(), address)
    }
}

/// `slots` cut into runs of `n`, the last one possibly shorter.
pub open spec fn chunks(slots: Seq<U256>, n: nat) -> Seq<Seq<U256>>
    decreases slots.len(),
{
    if slots.len() == 0 || n == 0 {
        Seq::empty()
    } else if slots.len() <= n {
        seq![slots]
    } else {
        seq![slots.take(n as int)] + chunks(slots.skip(n as int), n)
    }
}

/// Chunks of one address, each with the address.
pub open spec fn at_address(address: Address, runs: Seq<Seq<U256>>) -> Seq<Piece> {
    runs.map_values(|run: Seq<U256>| (address, run))
}

/// Every address of `order` with each of its chunks.
pub open spec fn all_pieces(
    order: Seq<Address>,
    requests: Seq<(Address, U256)>,
    n: nat,
) -> Seq<Piece>
    decreases order.len(),
{
    if order.len() == 0 {
        Seq::empty()
    } else {
        all_pieces(order.drop_last(), requests, n) + at_address(
            order.last(),
            chunks(slots_for(requests, order.last()), n),
        )
    }
}

/// Whether a piece gets a call of its own: it fills the call, or it targets
/// the dispatcher, whose code a multicall overrides.
pub open spec fn dedicated(piece: Piece, n: nat) -> bool {
    piece.1.len() == n || piece.0 == multicall3_address()
}

/// The pieces with a call of their own.
pub open spec fn singles(pieces: Seq<Piece>, n: nat) -> Seq<Piece> {
    pieces.filter(|p: Piece| dedicated(p, n))
}

/// The pieces that share calls.
pub open spec fn packable(pieces: Seq<Piece>, n: nat) -> Seq<Piece> {
    pieces.filter(|p: Piece| !dedicated(p, n))
}

/// Direct calls for each of `pieces`.
pub open spec fn single_plans(pieces: Seq<Piece>) -> Seq<PlanModel> {
    pieces.map_values(|p: Piece| PlanModel::Single { piece: p })
}

/// The call for the pieces gathered so far: none, a direct one, or a
/// multicall.
pub open spec fn flushed(current: Seq<Piece>) -> Seq<PlanModel> {
    if current.len() == 0 {
        Seq::empty()
    } else if current.len() == 1 {
        seq![PlanModel::Single { piece: current[0] }]
    } else {
        seq![PlanModel::Multi { pieces: current }]
    }
}

/// Whether `piece` no longer fits beside `current`.
pub open spec fn overflows(current: Seq<Piece>, piece: Piece, n: nat, m: nat) -> bool {
    slot_total(current) + piece.1.len() > n || current.len() >= m
}

/// Pieces gathered greedily into calls of at most `n` slots and `m` targets.
pub open spec fn greedy(rest: Seq<Piece>, current: Seq<Piece>, n: nat, m: nat) -> Seq<PlanModel>
    decreases rest.len(),
{
    if rest.len() == 0 {
        flushed(current)
    } else if current.len() > 0 && overflows(current, rest.first(), n, m) {
        flushed(current) + greedy(rest.drop_first(), seq![rest.first()], n, m)
    } else {
        greedy(rest.drop_first(), current.push(rest.first()), n, m)
    }
}

/// The calls for `requests`: pieces with a call of their own first, then the
/// remaining pieces gathered greedily.
pub open spec fn planned(requests: Seq<(Address, U256)>, n: nat, m: nat) -> Seq<PlanModel> {
    let pieces = all_pieces(first_seen(requests), requests, n);
    single_plans(singles(pieces, n)) + greedy(packable(pieces, n), Seq::empty(), n, m)
}

/// Requests grouped by address, in the order in which addresses first occur.
fn group_requests(requests: &[(Address, U256)]) -> (r: (Vec<Address>, Vec<Vec<U256>>))
    ensures
        r.0@ == first_seen(requests@),
        r.1@.len() == r.0@.len(),
        forall|j: int|
            0 <= j < r.0@.len() ==> (#[trigger] r.1@[j])@ == slots_for(requests@, r.0@[j]),
{
    let mut order: Vec<Address> = Vec::new();
    let mut groups: Vec<Vec<U256>> = Vec::new();
    let mut index: SortedMap<Address, usize> = SortedMap::new();
    let n: usize = requests.len();
    let mut i: usize = 0;
    assert(requests@.take(0) =~= Seq::<(Address, U256)>::empty());
    while i < n
        invariant
            i <= n == requests@.len(),
            order@ == first_seen(requests@.take(i as int)),
            groups@.len() == order@.len(),
            forall|j: int|
                0 <= j < order@.len() ==> (#[trigger] groups@[j])@ == slots_for(
                    requests@.take(i as int),
                    order@[j],
                ),
            forall|j: int| 0 <= j < order@.len() ==> index@.contains_key(#[trigger] order@[j]),
            forall|a: Address| #[trigger]
                index@.contains_key(a) ==> index@[a] < order@.len() && order@[index@[a] as int]
                    == a,
            order@.no_duplicates(),
        decreases n - i,
    {
        let (address, slot) = requests[i];
        let ghost before = requests@.take(i as int);
        let ghost after = requests@.take(i as int + 1);
        proof {
            assert(after.drop_last() =~= before);
        }
        let known: Option<usize> = match index.get(&address) {
            Some(at) => Some(*at),
            None => None,
        };
        match known {
            Some(at) => {
                assert(order@.contains(address));
                let ghost old_groups = groups@;
                let mut group: Vec<U256> = Vec::new();
                std::mem::swap(&mut group, &mut groups[at]);
                group.push(slot);
                groups[at] = group;
                assert forall|j: int| 0 <= j < order@.len() implies (#[trigger] groups@[j])@
                    == slots_for(after, order@[j]) by {
                    if j != at {
                        assert(groups@[j] == old_groups[j]);
                        assert(order@[j] != address);
                    }
                }
            },
            None => {
                proof {
                    if order@.contains(address) {
                        let j = order@.index_of(address);
                        assert(index@.contains_key(order@[j]));
                    }
                }
                index.insert(address, order.len());
                order.push(address);
                let mut group: Vec<U256> = Vec::new();
                group.push(slot);
                groups.push(group);
                proof {
                    lemma_unseen_has_no_slots(before, address);
                    assert forall|j: int| 0 <= j < order@.len() implies (#[trigger] groups@[j])@
                        == slots_for(after, order@[j]) by {
                        if j < order@.len() - 1 {
                            assert(order@[j] != address);
                        }
                    }
                }
            },
        }
        i = i + 1;
    }
    assert(requests@.take(n as int) =~= requests@);
    (order, groups)
}

/// An address that was not seen asks for nothing.
pub proof fn lemma_unseen_has_no_slots(requests: Seq<(Address, U256)>, address: Address)
    requires
        !first_seen(requests).contains(address),
    ensures
        slots_for(requests, address) == Seq::<U256>::empty(),
    decreases requests.len(),
{
    if requests.len() > 0 {
        let less = requests.drop_last();
        let seen = first_seen(less);
        if seen.contains(address) {
            let j = seen.index_of(address);
            assert(first_seen(requests)[j] == address);
        }
        if requests.last().0 == address {
            assert(first_seen(requests)[seen.len() as int] == address);
        }
        lemma_unseen_has_no_slots(less, address);
    }
}

/// A copy of a run of slots.
fn copy_slots(slots: &Vec<U256>, from: usize, to: usize) -> (r: Vec<U256>)
    requires
        from <= to <= slots@.len(),
    ensures
        r@ == slots@.subrange(from as int, to as int),
{
    let mut r: Vec<U256> = Vec::new();
    let mut i: usize = from;
    while i < to
        invariant
            from <= i <= to <= slots@.len(),
            r@ == slots@.subrange(from as int, i as int),
        decreases to - i,
    {
        r.push(slots[i]);
        assert(r@ =~= slots@.subrange(from as int, i as int + 1));
        i = i + 1;
    }
    r
}

/// Filtering one more piece keeps it or drops it.
proof fn lemma_filter_push(pieces: Seq<Piece>, piece: Piece, pred: spec_fn(Piece) -> bool)
    ensures
        pieces.push(piece).filter(pred) == if pred(piece) {
            pieces.filter(pred).push(piece)
        } else {
            pieces.filter(pred)
        },
{
    reveal(Seq::filter);
    assert(pieces.push(piece).drop_last() =~= pieces);
}

/// Cuts one address's slots into chunks and sorts each chunk into a direct
/// call or among the pieces that share calls.
fn split_address(
    address: Address,
    slots: &Vec<U256>,
    n: usize,
    plans: &mut Vec<CallPlan>,
    shared: &mut Vec<(Address, Vec<U256>)>,
    Ghost(done): Ghost<Seq<Piece>>,
)
    requires
        n >= 1,
        plans_of(old(plans)@) == single_plans(singles(done, n as nat)),
        pieces_of(old(shared)@) == packable(done, n as nat),
    ensures
        plans_of(final(plans)@) == single_plans(
            singles(done + at_address(address, chunks(slots@, n as nat)), n as nat),
        ),
        pieces_of(final(shared)@) == packable(
            done + at_address(address, chunks(slots@, n as nat)),
            n as nat,
        ),
{
    let len: usize = slots.len();
    let mut at: usize = 0;
    let ghost mut so_far: Seq<Piece> = done;
    let ghost whole = done + at_address(address, chunks(slots@, n as nat));
    proof {
        assert(slots@.skip(0) =~= slots@);
    }
    while at < len
        invariant
            n >= 1,
            at <= len == slots@.len(),
            plans_of(plans@) == single_plans(singles(so_far, n as nat)),
            pieces_of(shared@) == packable(so_far, n as nat),
            whole == so_far + at_address(address, chunks(slots@.skip(at as int), n as nat)),
        decreases len - at,
    {
        let end: usize = if len - at <= n {
            len
        } else {
            at + n
        };
        let full: bool = end - at == n;
        let chunk: Vec<U256> = copy_slots(slots, at, end);
        let ghost piece: Piece = (address, chunk@);
        proof {
            let rest = slots@.skip(at as int);
            let later = slots@.skip(end as int);
            assert(chunk@.len() == end - at);
            assert(dedicated(piece, n as nat) == (full || address == multicall3_address()));
            lemma_filter_push(so_far, piece, |p: Piece| dedicated(p, n as nat));
            lemma_filter_push(so_far, piece, |p: Piece| !dedicated(p, n as nat));
            if len - at <= n {
                assert(chunk@ =~= rest);
                assert(later.len() == 0);
                assert(chunks(rest, n as nat) == seq![rest]);
                assert(chunks(later, n as nat) == Seq::<Seq<U256>>::empty());
            } else {
                assert(chunk@ =~= rest.take(n as int));
                assert(later =~= rest.skip(n as int));
            }
            assert(at_address(address, chunks(rest, n as nat)) =~= seq![piece] + at_address(
                address,
                chunks(later, n as nat),
            ));
            assert(whole =~= so_far.push(piece) + at_address(address, chunks(later, n as nat)));
            so_far = so_far.push(piece);
        }
        let ghost before_plans = plans_of(plans@);
        let ghost before_shared = pieces_of(shared@);
        if full || address == multicall3_address() {
            plans.push(CallPlan::Single { target: address, slots: chunk });
            proof {
                assert(plans_of(plans@) =~= before_plans.push(PlanModel::Single { piece }));
                assert(plans_of(plans@) =~= single_plans(singles(so_far, n as nat)));
            }
        } else {
            shared.push((address, chunk));
            proof {
                assert(pieces_of(shared@) =~= before_shared.push(piece));
            }
        }
        at = end;
    }
    proof {
        assert(slots@.skip(at as int).len() == 0);
        assert(whole =~= so_far);
    }
}

/// Appends the call for the pieces gathered so far and starts anew.
fn flush(current: Vec<(Address, Vec<U256>)>, plans: &mut Vec<CallPlan>)
    ensures
        plans_of(final(plans)@) == plans_of(old(plans)@) + flushed(pieces_of(current@)),
{
    let ghost before = plans_of(plans@);
    let ghost gathered = pieces_of(current@);
    if current.len() == 0 {
        assert(plans_of(plans@) =~= before + flushed(gathered));
        return;
    }
    let mut current = current;
    if current.len() == 1 {
        let (target, slots) = current.remove(0);
        plans.push(CallPlan::Single { target, slots });
        assert(plans_of(plans@) =~= before + flushed(gathered));
        return;
    }
    plans.push(CallPlan::Multi { targets: current });
    assert(plans_of(plans@) =~= before + flushed(gathered));
}

/// Splits requests into calls.
///
/// Requests are grouped by address in the order in which addresses first
/// occur. A group is cut into runs of `max_slots_per_call` slots; a full run
/// gets a direct call, and so does every run at the dispatcher's own address.
/// What is left is gathered greedily into multicalls within the slot and the
/// target budget.
pub fn plan_calls(requests: &[(Address, U256)], config: &BulkCallConfig) -> (plans: Vec<CallPlan>)
    requires
        config.max_slots_per_call >= 1,
    ensures
        plans_of(plans@) == planned(
            requests@,
            config.max_slots_per_call as nat,
            config.max_targets_per_call as nat,
        ),
{
    let n: usize = config.max_slots_per_call;
    let m: usize = config.max_targets_per_call;
    let (order, groups) = group_requests(requests);
    let mut plans: Vec<CallPlan> = Vec::new();
    let mut shared: Vec<(Address, Vec<U256>)> = Vec::new();
    let count: usize = order.len();
    let mut i: usize = 0;
    proof {
        reveal(Seq::filter);
        assert(plans_of(plans@) =~= single_plans(singles(Seq::empty(), n as nat)));
        assert(pieces_of(shared@) =~= packable(Seq::empty(), n as nat));
        assert(order@.take(0) =~= Seq::<Address>::empty());
    }
    while i < count
        invariant
            n >= 1,
            i <= count == order@.len(),
            groups@.len() == order@.len(),
            forall|j: int|
                0 <= j < order@.len() ==> (#[trigger] groups@[j])@ == slots_for(
                    requests@,
                    order@[j],
                ),
            plans_of(plans@) == single_plans(
                singles(all_pieces(order@.take(i as int), requests@, n as nat), n as nat),
            ),
            pieces_of(shared@) == packable(
                all_pieces(order@.take(i as int), requests@, n as nat),
                n as nat,
            ),
        decreases count - i,
    {
        split_address(
            order[i],
            &groups[i],
            n,
            &mut plans,
            &mut shared,
            Ghost(all_pieces(order@.take(i as int), requests@, n as nat)),
        );
        assert(order@.take(i as int + 1).drop_last() =~= order@.take(i as int));
        i = i + 1;
    }
    assert(order@.take(count as int) =~= order@);
    let ghost fixed = plans_of(plans@);
    let ghost rest = pieces_of(shared@);
    let ghost whole = fixed + greedy(rest, Seq::empty(), n as nat, m as nat);
    gather(shared, n, m, &mut plans);
    assert(plans_of(plans@) == whole);
    plans
}

/// Gathers pieces greedily into calls within both budgets.
fn gather(shared: Vec<(Address, Vec<U256>)>, n: usize, m: usize, plans: &mut Vec<CallPlan>)
    ensures
        plans_of(final(plans)@) == plans_of(old(plans)@) + greedy(
            pieces_of(shared@),
            Seq::empty(),
            n as nat,
            m as nat,
        ),
{
    let mut current: Vec<(Address, Vec<U256>)> = Vec::new();
    let mut current_slots: usize = 0;
    let ghost rest = pieces_of(shared@);
    let ghost whole = plans_of(plans@) + greedy(rest, Seq::empty(), n as nat, m as nat);
    proof {
        assert(pieces_of(current@) =~= Seq::<Piece>::empty());
        assert(rest.skip(0) =~= rest);
    }
    for entry in it: shared
        invariant
            rest == pieces_of(it.seq()),
            current_slots == slot_total(pieces_of(current@)),
            whole == plans_of(plans@) + greedy(
                rest.skip(it.index()),
                pieces_of(current@),
                n as nat,
                m as nat,
            ),
    {
        let ghost i = it.index();
        let ghost piece: Piece = (entry.0, entry.1@);
        let ghost left = rest.skip(i);
        proof {
            assert(it.seq()[i] == entry);
            assert(left.first() == piece);
            assert(left.drop_first() =~= rest.skip(i + 1));
        }
        let len: usize = entry.1.len();
        let over: bool = current_slots > n || len > n - current_slots || current.len() >= m;
        if current.len() > 0 && over {
            let mut gathered: Vec<(Address, Vec<U256>)> = Vec::new();
            std::mem::swap(&mut gathered, &mut current);
            let ghost before = plans_of(plans@);
            flush(gathered, plans);
            current_slots = 0;
            proof {
                assert(pieces_of(current@) =~= Seq::<Piece>::empty());
                assert(Seq::<Piece>::empty().push(piece) =~= seq![piece]);
                let tail = greedy(left.drop_first(), seq![piece], n as nat, m as nat);
                assert(before + (flushed(pieces_of(gathered@)) + tail) =~= (before + flushed(
                    pieces_of(gathered@),
                )) + tail);
            }
        }
        let ghost gathered = pieces_of(current@);
        proof {
            if gathered.len() == 0 {
                assert(slot_total(gathered) == 0);
            }
            assert(gathered.push(piece).drop_last() =~= gathered);
        }
        current_slots = current_slots + len;
        current.push(entry);
        assert(pieces_of(current@) =~= gathered.push(piece));
    }
    proof {
        assert(rest.skip(rest.len() as int).len() == 0);
    }
    flush(current, plans);
}

} // verus!
