//! What planning and packing promise as a whole.

use crate::block::BlockId;
use crate::bulk_storage::config::{multicall3_address, BulkCallConfig};
use crate::bulk_storage::dispatch::{
    config_plans, conflicts, grouped, groups_of, is_shipping, plan_slot_total, Shipping,
};
use crate::bulk_storage::fetcher::{failed_requests, read_results};
use crate::bulk_storage::packing::{lemma_packed, packed, packed_word};
use crate::bulk_storage::planning::{
    all_pieces, at_address, chunks, dedicated, first_seen, flushed, greedy, lemma_unseen_has_no_slots,
    overflows, packable, planned, plans_of, single_plans, singles, slot_total, slots_for, Piece, PlanModel,
};
use crate::bulk_storage::response::{
    all_failed, decoded_results, direct_results, every_slot_failed, multicall_results,
    subcall_results, SlotResult,
};
use crate::errors::StorageFetchError;
use crate::foreign::SubcallResult;
use crate::primitives::{Address, U256};
use vstd::multiset::Multiset;
use vstd::prelude::*;

verus! {

/// The slot requests that a piece stands for.
pub open spec fn piece_pairs(piece: Piece) -> Seq<(Address, U256)> {
    piece.1.map_values(|s: U256| (piece.0, s))
}

/// The slot requests that pieces stand for, one piece after the other.
pub open spec fn pairs(pieces: Seq<Piece>) -> Seq<(Address, U256)>
    decreases pieces.len(),
{
    if pieces.len() == 0 {
        Seq::empty()
    } else {
        pairs(pieces.drop_last()) + piece_pairs(pieces.last())
    }
}

/// The slot requests that plans stand for, one plan after the other.
pub open spec fn plan_pairs(plans: Seq<PlanModel>) -> Seq<(Address, U256)>
    decreases plans.len(),
{
    if plans.len() == 0 {
        Seq::empty()
    } else {
        plan_pairs(plans.drop_last()) + pairs(plans.last().pieces())
    }
}

/// The requests behind two lists of pieces are those of the first and those of
/// the second.
pub proof fn lemma_pairs_concat(a: Seq<Piece>, b: Seq<Piece>)
    ensures
        pairs(a + b) == pairs(a) + pairs(b),
    decreases b.len(),
{
    if b.len() == 0 {
        assert(a + b =~= a);
        assert(pairs(a) + pairs(b) =~= pairs(a));
    } else {
        assert((a + b).drop_last() =~= a + b.drop_last());
        lemma_pairs_concat(a, b.drop_last());
        assert(pairs(a + b) =~= pairs(a) + pairs(b));
    }
}

/// The requests behind two lists of plans are those of the first and those of
/// the second.
pub proof fn lemma_plan_pairs_concat(a: Seq<PlanModel>, b: Seq<PlanModel>)
    ensures
        plan_pairs(a + b) == plan_pairs(a) + plan_pairs(b),
    decreases b.len(),
{
    if b.len() == 0 {
        assert(a + b =~= a);
        assert(plan_pairs(a) + plan_pairs(b) =~= plan_pairs(a));
    } else {
        assert((a + b).drop_last() =~= a + b.drop_last());
        lemma_plan_pairs_concat(a, b.drop_last());
        assert(plan_pairs(a + b) =~= plan_pairs(a) + plan_pairs(b));
    }
}

/// One piece stands for its own requests.
proof fn lemma_pairs_one(piece: Piece)
    ensures
        pairs(seq![piece]) == piece_pairs(piece),
{
    assert(seq![piece].drop_last() =~= Seq::<Piece>::empty());
    assert(pairs(Seq::<Piece>::empty()) == Seq::<(Address, U256)>::empty());
    assert(pairs(seq![piece]) =~= piece_pairs(piece));
}

/// One plan stands for the requests of its pieces.
proof fn lemma_plan_pairs_one(plan: PlanModel)
    ensures
        plan_pairs(seq![plan]) == pairs(plan.pieces()),
{
    assert(seq![plan].drop_last() =~= Seq::<PlanModel>::empty());
    assert(plan_pairs(Seq::<PlanModel>::empty()) == Seq::<(Address, U256)>::empty());
    assert(plan_pairs(seq![plan]) =~= pairs(plan.pieces()));
}

/// Direct calls stand for the requests of their pieces.
proof fn lemma_single_plan_pairs(pieces: Seq<Piece>)
    ensures
        plan_pairs(single_plans(pieces)) == pairs(pieces),
    decreases pieces.len(),
{
    if pieces.len() > 0 {
        lemma_single_plan_pairs(pieces.drop_last());
        assert(single_plans(pieces).drop_last() =~= single_plans(pieces.drop_last()));
        lemma_pairs_one(pieces.last());
    }
}

/// Flushing keeps the requests.
proof fn lemma_flushed_pairs(current: Seq<Piece>)
    ensures
        plan_pairs(flushed(current)) == pairs(current),
{
    if current.len() == 1 {
        lemma_plan_pairs_one(PlanModel::Single { piece: current[0] });
        assert(seq![current[0]] =~= current);
    } else if current.len() > 1 {
        lemma_plan_pairs_one(PlanModel::Multi { pieces: current });
    }
}

/// Gathering greedily keeps the requests, in order.
proof fn lemma_greedy_pairs(rest: Seq<Piece>, current: Seq<Piece>, n: nat, m: nat)
    ensures
        plan_pairs(greedy(rest, current, n, m)) == pairs(current) + pairs(rest),
    decreases rest.len(),
{
    if rest.len() == 0 {
        lemma_flushed_pairs(current);
        assert(pairs(current) + pairs(rest) =~= pairs(current));
    } else {
        let first = rest.first();
        let later = rest.drop_first();
        assert(rest =~= seq![first] + later);
        lemma_pairs_concat(seq![first], later);
        lemma_pairs_one(first);
        if current.len() > 0 && overflows(current, first, n, m) {
            lemma_greedy_pairs(later, seq![first], n, m);
            lemma_flushed_pairs(current);
            lemma_plan_pairs_concat(flushed(current), greedy(later, seq![first], n, m));
        } else {
            lemma_greedy_pairs(later, current.push(first), n, m);
            assert(current.push(first) =~= current + seq![first]);
            lemma_pairs_concat(current, seq![first]);
            assert((pairs(current) + pairs(seq![first])) + pairs(later) =~= pairs(current) + (pairs(
                seq![first],
            ) + pairs(later)));
        }
    }
}

/// Sorting pieces into direct and shared ones loses no request.
proof fn lemma_split_pairs(pieces: Seq<Piece>, n: nat)
    ensures
        pairs(singles(pieces, n)).to_multiset().add(pairs(packable(pieces, n)).to_multiset())
            == pairs(pieces).to_multiset(),
    decreases pieces.len(),
{
    reveal(Seq::filter);
    broadcast use vstd::seq_lib::group_to_multiset_ensures;

    if pieces.len() == 0 {
        assert(pairs(pieces).to_multiset() =~= Multiset::empty());
        assert(Multiset::<(Address, U256)>::empty().add(Multiset::empty()) =~= Multiset::<
            (Address, U256),
        >::empty());
    } else {
        let less = pieces.drop_last();
        let last = pieces.last();
        lemma_split_pairs(less, n);
        let a = singles(less, n);
        let b = packable(less, n);
        lemma_pairs_one(last);
        vstd::seq_lib::lemma_multiset_commutative(pairs(less), piece_pairs(last));
        if dedicated(last, n) {
            assert(singles(pieces, n) =~= a + seq![last]);
            assert(packable(pieces, n) =~= b);
            lemma_pairs_concat(a, seq![last]);
            vstd::seq_lib::lemma_multiset_commutative(pairs(a), piece_pairs(last));
        } else {
            assert(singles(pieces, n) =~= a);
            assert(packable(pieces, n) =~= b + seq![last]);
            lemma_pairs_concat(b, seq![last]);
            vstd::seq_lib::lemma_multiset_commutative(pairs(b), piece_pairs(last));
        }
        assert(pairs(singles(pieces, n)).to_multiset().add(
            pairs(packable(pieces, n)).to_multiset(),
        ) =~= pairs(pieces).to_multiset());
    }
}

/// Cutting slots into chunks keeps the requests, in order.
proof fn lemma_chunk_pairs(address: Address, slots: Seq<U256>, n: nat)
    requires
        n >= 1,
    ensures
        pairs(at_address(address, chunks(slots, n))) == piece_pairs((address, slots)),
    decreases slots.len(),
{
    let runs = at_address(address, chunks(slots, n));
    if slots.len() == 0 {
        assert(runs =~= Seq::<Piece>::empty());
        assert(piece_pairs((address, slots)) =~= Seq::<(Address, U256)>::empty());
    } else if slots.len() <= n {
        assert(runs =~= seq![(address, slots)]);
        lemma_pairs_one((address, slots));
    } else {
        let head = slots.take(n as int);
        let tail = slots.skip(n as int);
        lemma_chunk_pairs(address, tail, n);
        assert(runs =~= seq![(address, head)] + at_address(address, chunks(tail, n)));
        lemma_pairs_concat(seq![(address, head)], at_address(address, chunks(tail, n)));
        lemma_pairs_one((address, head));
        assert(piece_pairs((address, head)) + piece_pairs((address, tail)) =~= piece_pairs(
            (address, slots),
        ));
    }
}

/// The requests of every address of `order`, one address after the other.
spec fn by_address(order: Seq<Address>, requests: Seq<(Address, U256)>) -> Seq<(Address, U256)>
    decreases order.len(),
{
    if order.len() == 0 {
        Seq::empty()
    } else {
        by_address(order.drop_last(), requests) + piece_pairs(
            (order.last(), slots_for(requests, order.last())),
        )
    }
}

/// The pieces of all addresses stand for the requests of all addresses.
proof fn lemma_all_pieces_pairs(order: Seq<Address>, requests: Seq<(Address, U256)>, n: nat)
    requires
        n >= 1,
    ensures
        pairs(all_pieces(order, requests, n)) == by_address(order, requests),
    decreases order.len(),
{
    if order.len() > 0 {
        let runs = at_address(order.last(), chunks(slots_for(requests, order.last()), n));
        lemma_all_pieces_pairs(order.drop_last(), requests, n);
        lemma_chunk_pairs(order.last(), slots_for(requests, order.last()), n);
        lemma_pairs_concat(all_pieces(order.drop_last(), requests, n), runs);
    }
}

/// One more request adds itself where its address is listed, and changes
/// nothing elsewhere.
proof fn lemma_by_address_push(
    order: Seq<Address>,
    requests: Seq<(Address, U256)>,
    address: Address,
    slot: U256,
)
    requires
        order.no_duplicates(),
    ensures
        by_address(order, requests.push((address, slot))).to_multiset() == if order.contains(
            address,
        ) {
            by_address(order, requests).to_multiset().insert((address, slot))
        } else {
            by_address(order, requests).to_multiset()
        },
    decreases order.len(),
{
    broadcast use vstd::seq_lib::group_to_multiset_ensures;

    let more = requests.push((address, slot));
    assert(more.drop_last() =~= requests);
    if order.len() > 0 {
        let less = order.drop_last();
        let last = order.last();
        assert(less.no_duplicates());
        lemma_by_address_push(less, requests, address, slot);
        let old_tail = piece_pairs((last, slots_for(requests, last)));
        let new_tail = piece_pairs((last, slots_for(more, last)));
        vstd::seq_lib::lemma_multiset_commutative(by_address(less, requests), old_tail);
        vstd::seq_lib::lemma_multiset_commutative(by_address(less, more), new_tail);
        if last == address {
            if less.contains(address) {
                let j = less.index_of(address);
                assert(order[j] == order[order.len() - 1]);
            }
            assert(order[order.len() - 1] == address);
            assert(order.contains(address));
            assert(new_tail =~= old_tail.push((address, slot)));
            assert(by_address(order, more).to_multiset() =~= by_address(
                order,
                requests,
            ).to_multiset().insert((address, slot)));
        } else {
            assert(new_tail =~= old_tail);
            if less.contains(address) {
                let j = less.index_of(address);
                assert(order[j] == address);
                assert(by_address(order, more).to_multiset() =~= by_address(
                    order,
                    requests,
                ).to_multiset().insert((address, slot)));
            } else {
                if order.contains(address) {
                    let j = order.index_of(address);
                    assert(less[j] == address);
                }
                assert(by_address(order, more).to_multiset() =~= by_address(
                    order,
                    requests,
                ).to_multiset());
            }
        }
    } else {
        assert(by_address(order, more) =~= by_address(order, requests));
    }
}

/// Addresses are listed once each.
pub proof fn lemma_first_seen_unique(requests: Seq<(Address, U256)>)
    ensures
        first_seen(requests).no_duplicates(),
    decreases requests.len(),
{
    if requests.len() > 0 {
        lemma_first_seen_unique(requests.drop_last());
    }
}

/// Grouping by address loses no request.
proof fn lemma_grouping(requests: Seq<(Address, U256)>)
    ensures
        by_address(first_seen(requests), requests).to_multiset() == requests.to_multiset(),
    decreases requests.len(),
{
    broadcast use vstd::seq_lib::group_to_multiset_ensures;

    if requests.len() == 0 {
        assert(by_address(first_seen(requests), requests) =~= requests);
    } else {
        let less = requests.drop_last();
        let (address, slot) = requests.last();
        let seen = first_seen(less);
        assert(less.push((address, slot)) =~= requests);
        lemma_grouping(less);
        lemma_first_seen_unique(less);
        lemma_by_address_push(seen, less, address, slot);
        if !seen.contains(address) {
            let order = seen.push(address);
            assert(order.drop_last() =~= seen);
            lemma_unseen_has_no_slots(less, address);
            assert(slots_for(requests, address) =~= seq![slot]);
            let tail = piece_pairs((address, slots_for(requests, address)));
            assert(tail =~= seq![(address, slot)]);
            assert(by_address(order, requests) =~= by_address(seen, requests).push(
                (address, slot),
            ));
        }
    }
}

/// The planned calls read every requested slot as often as it was requested,
/// and nothing else.
pub proof fn law_plans_cover_requests(requests: Seq<(Address, U256)>, n: nat, m: nat)
    requires
        n >= 1,
    ensures
        plan_pairs(planned(requests, n, m)).to_multiset() == requests.to_multiset(),
{
    let order = first_seen(requests);
    let pieces = all_pieces(order, requests, n);
    let alone = singles(pieces, n);
    let shared = packable(pieces, n);
    lemma_single_plan_pairs(alone);
    lemma_greedy_pairs(shared, Seq::empty(), n, m);
    assert(pairs(Seq::<Piece>::empty()) + pairs(shared) =~= pairs(shared));
    lemma_plan_pairs_concat(single_plans(alone), greedy(shared, Seq::empty(), n, m));
    vstd::seq_lib::lemma_multiset_commutative(pairs(alone), pairs(shared));
    lemma_split_pairs(pieces, n);
    lemma_all_pieces_pairs(order, requests, n);
    lemma_grouping(requests);
}

/// Whether the pieces name each target once.
pub open spec fn distinct_targets(pieces: Seq<Piece>) -> bool {
    forall|i: int, j: int|
        0 <= i < j < pieces.len() ==> (#[trigger] pieces[i]).0 != (#[trigger] pieces[j]).0
}

/// Whether one planned call keeps to the budgets: at most `n` slots and, for a
/// multicall, at most `m` distinct targets, none of them the dispatcher.
pub open spec fn within_budgets(plan: PlanModel, n: nat, m: nat) -> bool {
    &&& plan.slot_count() <= n
    &&& match plan {
        PlanModel::Single { piece } => piece.1.len() >= 1,
        PlanModel::Multi { pieces } => {
            &&& 2 <= pieces.len() <= m
            &&& distinct_targets(pieces)
            &&& forall|i: int|
                0 <= i < pieces.len() ==> (#[trigger] pieces[i]).0 != multicall3_address()
                    && pieces[i].1.len() >= 1
        },
    }
}

/// Whether all planned calls keep to the budgets.
pub open spec fn all_within_budgets(plans: Seq<PlanModel>, n: nat, m: nat) -> bool {
    forall|i: int| 0 <= i < plans.len() ==> within_budgets(#[trigger] plans[i], n, m)
}

/// Chunks are at least one and at most `n` slots long.
proof fn lemma_chunk_sizes(slots: Seq<U256>, n: nat, i: int)
    requires
        n >= 1,
        0 <= i < chunks(slots, n).len(),
    ensures
        1 <= chunks(slots, n)[i].len() <= n,
        i < chunks(slots, n).len() - 1 ==> chunks(slots, n)[i].len() == n,
    decreases slots.len(),
{
    if slots.len() > n && i > 0 {
        lemma_chunk_sizes(slots.skip(n as int), n, i - 1);
    }
}

/// Facts about every piece: its size, and that its address is listed.
proof fn lemma_piece_facts(
    order: Seq<Address>,
    requests: Seq<(Address, U256)>,
    n: nat,
    i: int,
)
    requires
        n >= 1,
        0 <= i < all_pieces(order, requests, n).len(),
    ensures
        1 <= all_pieces(order, requests, n)[i].1.len() <= n,
        order.contains(all_pieces(order, requests, n)[i].0),
    decreases order.len(),
{
    if order.len() > 0 {
        let head = all_pieces(order.drop_last(), requests, n);
        let slots = slots_for(requests, order.last());
        if i < head.len() {
            lemma_piece_facts(order.drop_last(), requests, n, i);
            let j = order.drop_last().index_of(head[i].0);
            assert(order[j] == head[i].0);
        } else {
            lemma_chunk_sizes(slots, n, i - head.len());
            assert(order[order.len() - 1] == order.last());
        }
    }
}

/// Filtering keeps members only.
proof fn lemma_filter_member(pieces: Seq<Piece>, pred: spec_fn(Piece) -> bool, i: int)
    requires
        0 <= i < pieces.filter(pred).len(),
    ensures
        pred(pieces.filter(pred)[i]),
        pieces.contains(pieces.filter(pred)[i]),
    decreases pieces.len(),
{
    reveal(Seq::filter);
    if pieces.len() > 0 {
        let less = pieces.drop_last();
        if i < less.filter(pred).len() {
            lemma_filter_member(less, pred, i);
            let j = less.index_of(less.filter(pred)[i]);
            assert(pieces[j] == less[j]);
        } else {
            assert(pieces[pieces.len() - 1] == pieces.last());
        }
    }
}

/// At most one chunk of an address shares a call.
proof fn lemma_one_remainder(address: Address, slots: Seq<U256>, n: nat)
    requires
        n >= 1,
    ensures
        packable(at_address(address, chunks(slots, n)), n).len() <= 1,
    decreases slots.len(),
{
    reveal(Seq::filter);
    let runs = at_address(address, chunks(slots, n));
    let pred = |p: Piece| !dedicated(p, n);
    if slots.len() == 0 {
    } else if slots.len() <= n {
        runs.lemma_filter_len(pred);
        assert(runs.len() == 1);
    } else {
        let head: Piece = (address, slots.take(n as int));
        let tail = at_address(address, chunks(slots.skip(n as int), n));
        lemma_one_remainder(address, slots.skip(n as int), n);
        assert(runs =~= seq![head] + tail);
        Seq::filter_distributes_over_add(seq![head], tail, pred);
        assert(seq![head].drop_last() =~= Seq::<Piece>::empty());
        assert(Seq::<Piece>::empty().filter(pred) =~= Seq::<Piece>::empty());
        assert(head.1.len() == n);
        assert(seq![head].last() == head);
        assert(!pred(head));
        assert(seq![head].filter(pred) =~= Seq::<Piece>::empty());
        assert(runs.filter(pred) =~= tail.filter(pred));
    }
}

/// The pieces that share calls name each target once.
proof fn lemma_remainders_distinct(order: Seq<Address>, requests: Seq<(Address, U256)>, n: nat)
    requires
        n >= 1,
        order.no_duplicates(),
    ensures
        distinct_targets(packable(all_pieces(order, requests, n), n)),
    decreases order.len(),
{
    reveal(Seq::filter);
    let pred = |p: Piece| !dedicated(p, n);
    if order.len() > 0 {
        let less = order.drop_last();
        let last = order.last();
        assert(less.no_duplicates());
        lemma_remainders_distinct(less, requests, n);
        let head = all_pieces(less, requests, n);
        let runs = at_address(last, chunks(slots_for(requests, last), n));
        lemma_one_remainder(last, slots_for(requests, last), n);
        Seq::filter_distributes_over_add(head, runs, pred);
        let a = packable(head, n);
        let b = packable(runs, n);
        let whole = packable(all_pieces(order, requests, n), n);
        assert(whole == a + b);
        assert forall|i: int, j: int| 0 <= i < j < whole.len() implies (#[trigger] whole[i]).0 != (
        #[trigger] whole[j]).0 by {
            if j >= a.len() {
                lemma_filter_member(runs, pred, j - a.len());
                assert(whole[j].0 == last);
                if i < a.len() {
                    lemma_filter_member(head, pred, i);
                    let k = head.index_of(a[i]);
                    lemma_piece_facts(less, requests, n, k);
                    if a[i].0 == last {
                        let l = less.index_of(last);
                        assert(order[l] == order[order.len() - 1]);
                    }
                }
            }
        }
    }
}

/// Whether pieces may be gathered: small, not at the dispatcher, and distinct.
spec fn gatherable(pieces: Seq<Piece>, n: nat) -> bool {
    &&& distinct_targets(pieces)
    &&& forall|i: int|
        0 <= i < pieces.len() ==> (#[trigger] pieces[i]).0 != multicall3_address() && 1
            <= pieces[i].1.len() <= n
}

/// The slots of one piece.
proof fn lemma_slot_total_one(piece: Piece)
    ensures
        slot_total(seq![piece]) == piece.1.len(),
{
    assert(seq![piece].drop_last() =~= Seq::<Piece>::empty());
    assert(slot_total(Seq::<Piece>::empty()) == 0);
}

/// Gathering greedily keeps to the budgets.
proof fn lemma_greedy_budgets(rest: Seq<Piece>, current: Seq<Piece>, n: nat, m: nat)
    requires
        gatherable(current + rest, n),
        slot_total(current) <= n,
        current.len() <= 1 || current.len() <= m,
    ensures
        all_within_budgets(greedy(rest, current, n, m), n, m),
    decreases rest.len(),
{
    assert(gatherable(current, n)) by {
        assert forall|i: int| 0 <= i < current.len() implies (#[trigger] current[i]).0
            != multicall3_address() && 1 <= current[i].1.len() <= n by {
            assert((current + rest)[i] == current[i]);
        }
        assert forall|i: int, j: int| 0 <= i < j < current.len() implies (
        #[trigger] current[i]).0 != (#[trigger] current[j]).0 by {
            assert((current + rest)[i] == current[i]);
            assert((current + rest)[j] == current[j]);
        }
    }
    assert(all_within_budgets(flushed(current), n, m)) by {
        if current.len() == 1 {
            assert(seq![current[0]] =~= current);
        }
    }
    if rest.len() > 0 {
        let first = rest.first();
        let later = rest.drop_first();
        assert((current + rest)[current.len() as int] == first);
        lemma_slot_total_one(first);
        if current.len() > 0 && overflows(current, first, n, m) {
            let next = seq![first] + later;
            assert(next =~= rest);
            assert(gatherable(rest, n)) by {
                let all = current + rest;
                assert forall|i: int| 0 <= i < rest.len() implies (#[trigger] rest[i]).0
                    != multicall3_address() && 1 <= rest[i].1.len() <= n by {
                    assert(all[i + current.len()] == rest[i]);
                }
                assert forall|i: int, j: int| 0 <= i < j < rest.len() implies (
                #[trigger] rest[i]).0 != (#[trigger] rest[j]).0 by {
                    assert(all[i + current.len()] == rest[i]);
                    assert(all[j + current.len()] == rest[j]);
                }
            }
            lemma_greedy_budgets(later, seq![first], n, m);
        } else {
            assert(current.push(first) + later =~= current + rest);
            assert(current.push(first).drop_last() =~= current);
            if current.len() == 0 {
                assert(slot_total(current) == 0);
            }
            lemma_greedy_budgets(later, current.push(first), n, m);
        }
    }
}

/// Every planned call keeps to the budgets: no call reads more than `n` slots,
/// no multicall has more than `m` targets, names a target twice or targets the
/// dispatcher.
pub proof fn law_plans_keep_budgets(requests: Seq<(Address, U256)>, n: nat, m: nat)
    requires
        n >= 1,
    ensures
        all_within_budgets(planned(requests, n, m), n, m),
{
    let order = first_seen(requests);
    let pieces = all_pieces(order, requests, n);
    let alone = singles(pieces, n);
    let shared = packable(pieces, n);
    lemma_first_seen_unique(requests);
    lemma_remainders_distinct(order, requests, n);
    assert(Seq::<Piece>::empty() + shared =~= shared);
    assert(gatherable(shared, n)) by {
        assert forall|i: int| 0 <= i < shared.len() implies (#[trigger] shared[i]).0
            != multicall3_address() && 1 <= shared[i].1.len() <= n by {
            lemma_filter_member(pieces, |p: Piece| !dedicated(p, n), i);
            lemma_piece_facts(order, requests, n, pieces.index_of(shared[i]));
        }
    }
    lemma_greedy_budgets(shared, Seq::empty(), n, m);
    let plans = planned(requests, n, m);
    assert forall|i: int| 0 <= i < plans.len() implies within_budgets(#[trigger] plans[i], n, m) by {
        if i < alone.len() {
            lemma_filter_member(pieces, |p: Piece| dedicated(p, n), i);
            lemma_piece_facts(order, requests, n, pieces.index_of(alone[i]));
            lemma_slot_total_one(alone[i]);
            assert(plans[i] == PlanModel::Single { piece: alone[i] });
        } else {
            assert(plans[i] == greedy(shared, Seq::empty(), n, m)[i - alone.len()]);
        }
    }
}

/// The slots that results answer.
pub open spec fn answered(results: Seq<SlotResult>) -> Seq<(Address, U256)> {
    results.map_values(|r: SlotResult| (r.0, r.1))
}

/// The same failure for every slot answers every slot.
proof fn lemma_failure_answers(pieces: Seq<Piece>, error: StorageFetchError)
    ensures
        answered(every_slot_failed(pieces, error)) == pairs(pieces),
    decreases pieces.len(),
{
    if pieces.len() > 0 {
        lemma_failure_answers(pieces.drop_last(), error);
        let head = every_slot_failed(pieces.drop_last(), error);
        let tail = all_failed(pieces.last(), error);
        assert(answered(head + tail) =~= answered(head) + answered(tail));
        assert(answered(tail) =~= piece_pairs(pieces.last()));
    } else {
        assert(answered(every_slot_failed(pieces, error)) =~= pairs(pieces));
    }
}

/// The outcomes of all targets answer every slot.
proof fn lemma_outcomes_answer(pieces: Seq<Piece>, outcomes: Seq<(bool, Seq<u8>)>)
    ensures
        answered(multicall_results(pieces, outcomes)) == pairs(pieces),
    decreases pieces.len(),
{
    if pieces.len() > 0 {
        lemma_outcomes_answer(pieces.drop_last(), outcomes);
        let head = multicall_results(pieces.drop_last(), outcomes);
        let tail = subcall_results(pieces.last(), outcomes[pieces.len() - 1]);
        assert(answered(head + tail) =~= answered(head) + answered(tail));
        assert(answered(tail) =~= piece_pairs(pieces.last()));
    } else {
        assert(answered(multicall_results(pieces, outcomes)) =~= pairs(pieces));
    }
}

/// Whatever a multicall returns, each of its slots gets exactly one result, in
/// the order of the plan.
pub proof fn law_multicall_answers_every_slot(
    pieces: Seq<Piece>,
    decoded: Result<Vec<SubcallResult>, String>,
)
    ensures
        answered(decoded_results(pieces, decoded)) == pairs(pieces),
{
    match decoded {
        Ok(list) => {
            if list@.len() == pieces.len() {
                lemma_outcomes_answer(pieces, list@.map_values(|s: SubcallResult| s@));
            } else {
                lemma_failure_answers(
                    pieces,
                    StorageFetchError::ResultCount {
                        returned: list@.len() as usize,
                        expected: pieces.len() as usize,
                    },
                );
            }
        },
        Err(details) => {
            lemma_failure_answers(pieces, StorageFetchError::ResponseDecode { details });
        },
    }
}

/// Whatever a direct call returns, each of its slots gets exactly one result.
pub proof fn law_direct_call_answers_every_slot(piece: Piece, data: Seq<u8>)
    ensures
        answered(direct_results(piece, data)) == piece_pairs(piece),
{
    assert(answered(direct_results(piece, data)) =~= piece_pairs(piece));
}

/// A call that fails as a whole still gives each of its slots exactly one
/// result.
pub proof fn law_failed_call_answers_every_slot(plan: PlanModel, error: StorageFetchError)
    ensures
        answered(every_slot_failed(plan.pieces(), error)) == pairs(plan.pieces()),
{
    lemma_failure_answers(plan.pieces(), error);
}

/// Repairing loses no request: those that were read and those to repeat are
/// together the requests that came in.
pub proof fn law_repair_keeps_requests(results: Seq<SlotResult>)
    ensures
        answered(read_results(results)).to_multiset().add(failed_requests(results).to_multiset())
            == answered(results).to_multiset(),
    decreases results.len(),
{
    reveal(Seq::filter);
    broadcast use vstd::seq_lib::group_to_multiset_ensures;

    if results.len() == 0 {
        assert(answered(results) =~= Seq::<(Address, U256)>::empty());
        assert(failed_requests(results) =~= Seq::<(Address, U256)>::empty());
        assert(answered(read_results(results)) =~= Seq::<(Address, U256)>::empty());
        assert(Multiset::<(Address, U256)>::empty().add(Multiset::empty()) =~= Multiset::<
            (Address, U256),
        >::empty());
    } else {
        let less = results.drop_last();
        let last = results.last();
        let key = (last.0, last.1);
        law_repair_keeps_requests(less);
        assert(answered(results) =~= answered(less).push(key));
        let read = answered(read_results(less)).to_multiset();
        let failed = failed_requests(less).to_multiset();
        if last.2 is Ok {
            assert(answered(read_results(results)) =~= answered(read_results(less)).push(key));
            assert(failed_requests(results) =~= failed_requests(less));
            assert(read.insert(key).add(failed) =~= read.add(failed).insert(key));
        } else {
            assert(answered(read_results(results)) =~= answered(read_results(less)));
            assert(failed_requests(results) =~= failed_requests(less).push(key));
            assert(read.add(failed.insert(key)) =~= read.add(failed).insert(key));
        }
    }
}

/// Grouping plans into requests keeps every plan, in order.
pub proof fn law_grouping_keeps_plans(
    rest: Seq<PlanModel>,
    current: Seq<PlanModel>,
    budget: nat,
)
    ensures
        grouped(rest, current, budget).flatten() == current + rest,
    decreases rest.len(),
{
    let groups = grouped(rest, current, budget);
    if rest.len() == 0 {
        if current.len() == 0 {
            assert(groups.flatten() =~= current + rest);
        } else {
            groups.lemma_flatten_one_element();
            assert(groups.flatten() =~= current + rest);
        }
    } else {
        let first = rest.first();
        let later = rest.drop_first();
        if current.len() > 0 && plan_slot_total(current) + first.slot_count() > budget {
            let tail = grouped(later, seq![first], budget);
            law_grouping_keeps_plans(later, seq![first], budget);
            assert(groups.drop_first() =~= tail);
            assert(groups.first() == current);
            assert(groups.flatten() =~= current + rest);
        } else {
            law_grouping_keeps_plans(later, current.push(first), budget);
            assert(current.push(first) + later =~= current + rest);
        }
    }
}

/// A request stays within the slot budget unless it holds a single plan.
pub proof fn law_grouping_keeps_budget(
    rest: Seq<PlanModel>,
    current: Seq<PlanModel>,
    budget: nat,
    i: int,
)
    requires
        plan_slot_total(current) <= budget || current.len() <= 1,
        0 <= i < grouped(rest, current, budget).len(),
    ensures
        grouped(rest, current, budget)[i].len() >= 1,
        plan_slot_total(grouped(rest, current, budget)[i]) <= budget || grouped(
            rest,
            current,
            budget,
        )[i].len() == 1,
    decreases rest.len(),
{
    if rest.len() > 0 {
        let first = rest.first();
        let later = rest.drop_first();
        if current.len() > 0 && plan_slot_total(current) + first.slot_count() > budget {
            if i > 0 {
                law_grouping_keeps_budget(later, seq![first], budget, i - 1);
            }
        } else {
            assert(current.push(first).drop_last() =~= current);
            law_grouping_keeps_budget(later, current.push(first), budget, i);
        }
    }
}

/// Decoding a packed payload gives back the words that were packed.
pub proof fn law_pack_then_decode(slots: Seq<U256>, values: Seq<U256>)
    requires
        values.len() == slots.len(),
        forall|i: int|
            0 <= i < values.len() ==> (#[trigger] values[i])@ == packed_word(packed(slots), i),
    ensures
        packed(slots).len() == slots.len() * 32,
        values == slots,
{
    lemma_packed(slots);
    assert forall|i: int| 0 <= i < slots.len() implies values[i] == slots[i] by {
        U256::lemma_injective(values[i], slots[i]);
    }
    assert(values =~= slots);
}

/// The plans that go out, those of bundles first.
pub open spec fn shipped(shipping: Shipping) -> Seq<PlanModel> {
    match shipping {
        Shipping::PerCall { plans } => plans_of(plans@),
        Shipping::CallMany { groups, conflicting, .. } => groups_of(groups@).flatten() + plans_of(
            conflicting@,
        ),
    }
}

/// Results, one list after the other.
pub open spec fn all_results(answers: Seq<Seq<SlotResult>>) -> Seq<SlotResult>
    decreases answers.len(),
{
    if answers.len() == 0 {
        Seq::empty()
    } else {
        all_results(answers.drop_last()) + answers.last()
    }
}

/// Taking some plans apart from the others loses no request.
proof fn lemma_split_keeps_pairs(plans: Seq<PlanModel>)
    ensures
        plan_pairs(
            plans.filter(|p: PlanModel| !conflicts(p)) + plans.filter(|p: PlanModel| conflicts(p)),
        ).to_multiset() == plan_pairs(plans).to_multiset(),
    decreases plans.len(),
{
    let apart = |p: PlanModel| conflicts(p);
    let together = |p: PlanModel| !conflicts(p);
    reveal(Seq::filter);
    if plans.len() == 0 {
        assert(plans.filter(together) + plans.filter(apart) =~= plans);
    } else {
        let less = plans.drop_last();
        let last = plans.last();
        let last_pairs = pairs(last.pieces());
        let kept = less.filter(together);
        let taken = less.filter(apart);
        lemma_split_keeps_pairs(less);
        assert(plans =~= less.push(last));
        lemma_plan_pairs_concat(kept, taken);
        vstd::seq_lib::lemma_multiset_commutative(plan_pairs(kept), plan_pairs(taken));
        vstd::seq_lib::lemma_multiset_commutative(plan_pairs(less), last_pairs);
        if conflicts(last) {
            assert(plans.filter(apart) == taken.push(last));
            assert(plans.filter(together) == kept);
            assert(taken.push(last).drop_last() =~= taken);
            lemma_plan_pairs_concat(kept, taken.push(last));
            vstd::seq_lib::lemma_multiset_commutative(
                plan_pairs(kept),
                plan_pairs(taken.push(last)),
            );
            vstd::seq_lib::lemma_multiset_commutative(plan_pairs(taken), last_pairs);
        } else {
            assert(plans.filter(apart) == taken);
            assert(plans.filter(together) == kept.push(last));
            assert(kept.push(last).drop_last() =~= kept);
            lemma_plan_pairs_concat(kept.push(last), taken);
            vstd::seq_lib::lemma_multiset_commutative(
                plan_pairs(kept.push(last)),
                plan_pairs(taken),
            );
            vstd::seq_lib::lemma_multiset_commutative(plan_pairs(kept), last_pairs);
        }
        assert(plan_pairs(plans.filter(together) + plans.filter(apart)).to_multiset()
            =~= plan_pairs(plans).to_multiset());
    }
}

/// Answers to plans answer what the plans stand for.
proof fn lemma_answers_answer_plans(plans: Seq<PlanModel>, answers: Seq<Seq<SlotResult>>)
    requires
        answers.len() == plans.len(),
        forall|i: int|
            0 <= i < plans.len() ==> answered(#[trigger] answers[i]) == pairs(plans[i].pieces()),
    ensures
        answered(all_results(answers)) == plan_pairs(plans),
    decreases plans.len(),
{
    if plans.len() > 0 {
        lemma_answers_answer_plans(plans.drop_last(), answers.drop_last());
        assert(answered(answers.last()) == pairs(plans.last().pieces()));
        assert(answered(all_results(answers)) =~= answered(all_results(answers.drop_last()))
            + answered(answers.last()));
    } else {
        assert(answered(all_results(answers)) =~= plan_pairs(plans));
    }
}

/// Every request is answered, as often as it was made, and nothing else is: however
/// requests go out, and whatever comes back for each plan, where each plan's slots
/// get one result each.
pub proof fn law_every_request_is_answered(
    shipping: Shipping,
    requests: Seq<(Address, U256)>,
    block: BlockId,
    config: BulkCallConfig,
    answers: Seq<Seq<SlotResult>>,
)
    requires
        is_shipping(shipping, requests, block, config),
        answers.len() == shipped(shipping).len(),
        forall|i: int|
            0 <= i < answers.len() ==> answered(#[trigger] answers[i]) == pairs(
                shipped(shipping)[i].pieces(),
            ),
    ensures
        answered(all_results(answers)).to_multiset() == requests.to_multiset(),
{
    let sane = config.spec_normalized();
    let plans = config_plans(requests, config);
    law_plans_cover_requests(
        requests,
        sane.max_slots_per_call as nat,
        sane.max_targets_per_call as nat,
    );
    lemma_answers_answer_plans(shipped(shipping), answers);
    match shipping {
        Shipping::PerCall { .. } => {},
        Shipping::CallMany { groups, .. } => {
            let bundled = plans.filter(|p: PlanModel| !conflicts(p));
            law_grouping_keeps_plans(
                bundled,
                Seq::empty(),
                sane.max_slots_per_request as nat,
            );
            assert(Seq::<PlanModel>::empty() + bundled =~= bundled);
            lemma_split_keeps_pairs(plans);
        },
    }
}

/// A batch that was repaired answers every request: where the bulk path answers
/// every request and the fallback every one that failed, the results that stand and
/// those of the fallback together do.
pub proof fn law_repaired_batches_answer_requests(
    requests: Seq<(Address, U256)>,
    results: Seq<SlotResult>,
    repeated: Seq<SlotResult>,
)
    requires
        answered(results).to_multiset() == requests.to_multiset(),
        answered(repeated).to_multiset() == failed_requests(results).to_multiset(),
    ensures
        answered(read_results(results) + repeated).to_multiset() == requests.to_multiset(),
{
    law_repair_keeps_requests(results);
    let standing = read_results(results);
    assert(answered(standing + repeated) =~= answered(standing) + answered(repeated));
    vstd::seq_lib::lemma_multiset_commutative(answered(standing), answered(repeated));
}

} // verus!
