//! What planned calls send, and how they are shipped.

use crate::block::{BlockId, BlockNumberOrTag};
use crate::bulk_storage::config::{multicall3_address, BulkCallConfig, CallDispatch};
use crate::bulk_storage::laws::{all_within_budgets, law_plans_keep_budgets};
use crate::bulk_storage::packing::{pack_slots_calldata, packed};
use crate::bulk_storage::planning::{
    pieces_of, plan_calls, planned, plans_of, CallPlan, Piece, PlanModel,
};
use crate::bulk_storage::response::{
    decode_plan_response, direct_results, every_slot_failed, is_decoded_response, plan_error_results,
    SlotResult,
};
use crate::bytes::Bytes;
use crate::collections::SortedMap;
use crate::errors::StorageFetchError;
use crate::foreign::{aggregate3_arguments, encode_aggregate3_arguments, Call3};
use crate::primitives::{Address, U256};
use vstd::prelude::*;

verus! {

/// The selector of `aggregate3((address,bool,bytes)[])`.
pub open spec fn aggregate3_selector() -> Seq<u8> {
    seq![0x82, 0xad, 0x56, 0xcb]
}

/// The calls of a multicall that runs the extractor at each piece's target and
/// goes on when one of them fails.
pub open spec fn extractor_calls(pieces: Seq<Piece>) -> Seq<(nat, bool, Seq<u8>)> {
    pieces.map_values(|p: Piece| (p.0@, true, packed(p.1)))
}

/// The calldata of an `aggregate3` call.
pub fn aggregate3_calldata(calls: &Vec<Call3>) -> (r: Bytes)
    ensures
        r@ == aggregate3_selector() + aggregate3_arguments(calls@.map_values(|c: Call3| c@)),
{
    let mut data: Vec<u8> = Vec::new();
    data.push(0x82);
    data.push(0xad);
    data.push(0x56);
    data.push(0xcb);
    let mut arguments: Vec<u8> = encode_aggregate3_arguments(calls);
    data.append(&mut arguments);
    assert(data@ =~= aggregate3_selector() + aggregate3_arguments(
        calls@.map_values(|c: Call3| c@),
    ));
    Bytes::from_vec(data)
}

/// Encodes a multicall that runs the extractor at every target.
pub fn encode_multi_target_calldata(targets: &[(Address, Vec<U256>)]) -> (r: Bytes)
    ensures
        r@ == aggregate3_selector() + aggregate3_arguments(extractor_calls(pieces_of(targets@))),
{
    let mut calls: Vec<Call3> = Vec::new();
    let n: usize = targets.len();
    let mut i: usize = 0;
    let ghost wanted = extractor_calls(pieces_of(targets@));
    while i < n
        invariant
            i <= n == targets@.len(),
            wanted == extractor_calls(pieces_of(targets@)),
            calls@.map_values(|c: Call3| c@) == wanted.take(i as int),
        decreases n - i,
    {
        let ghost before = calls@.map_values(|c: Call3| c@);
        calls.push(
            Call3 {
                target: targets[i].0,
                allow_failure: true,
                call_data: pack_slots_calldata(targets[i].1.as_slice()),
            },
        );
        assert(calls@.map_values(|c: Call3| c@) =~= before.push(calls@[i as int]@));
        assert(calls@.map_values(|c: Call3| c@) =~= wanted.take(i as int + 1));
        i = i + 1;
    }
    assert(wanted.take(n as int) =~= wanted);
    aggregate3_calldata(&calls)
}

/// The contract that a plan calls, and with what.
pub open spec fn call_parts(plan: PlanModel) -> (Address, Seq<u8>) {
    match plan {
        PlanModel::Single { piece } => (piece.0, packed(piece.1)),
        PlanModel::Multi { pieces } => (
            multicall3_address(),
            aggregate3_selector() + aggregate3_arguments(extractor_calls(pieces)),
        ),
    }
}

/// The contract that a plan calls, and with what.
pub fn plan_call_parts(plan: &CallPlan) -> (r: (Address, Bytes))
    ensures
        (r.0, r.1@) == call_parts(plan@),
{
    match plan {
        CallPlan::Single { target, slots } => (*target, pack_slots_calldata(slots.as_slice())),
        CallPlan::Multi { targets } => (
            multicall3_address(),
            encode_multi_target_calldata(targets.as_slice()),
        ),
    }
}

/// The extractor at every piece's target, over what `codes` already holds.
pub open spec fn with_extractors(
    codes: Map<Address, Bytes>,
    pieces: Seq<Piece>,
    extractor: Bytes,
) -> Map<Address, Bytes>
    decreases pieces.len(),
{
    if pieces.len() == 0 {
        codes
    } else {
        with_extractors(codes, pieces.drop_last(), extractor).insert(pieces.last().0, extractor)
    }
}

/// The code overrides of a plan over what `codes` already holds: the extractor
/// at every target and, for a multicall, the dispatcher's code.
pub open spec fn plan_overrides(
    codes: Map<Address, Bytes>,
    plan: PlanModel,
    extractor: Bytes,
    dispatcher: Bytes,
) -> Map<Address, Bytes> {
    match plan {
        PlanModel::Single { piece } => codes.insert(piece.0, extractor),
        PlanModel::Multi { pieces } => with_extractors(
            codes.insert(multicall3_address(), dispatcher),
            pieces,
            extractor,
        ),
    }
}

/// Adds the code overrides of one plan.
fn add_overrides(
    codes: &mut SortedMap<Address, Bytes>,
    plan: &CallPlan,
    extractor: &Bytes,
    dispatcher: &Bytes,
)
    ensures
        final(codes)@ == plan_overrides(old(codes)@, plan@, *extractor, *dispatcher),
{
    match plan {
        CallPlan::Single { target, .. } => {
            codes.insert(*target, extractor.clone());
        },
        CallPlan::Multi { targets } => {
            codes.insert(multicall3_address(), dispatcher.clone());
            let ghost start = codes@;
            let ghost pieces = pieces_of(targets@);
            let n: usize = targets.len();
            let mut i: usize = 0;
            assert(pieces.take(0) =~= Seq::<Piece>::empty());
            while i < n
                invariant
                    i <= n == targets@.len(),
                    pieces == pieces_of(targets@),
                    codes@ == with_extractors(start, pieces.take(i as int), *extractor),
                decreases n - i,
            {
                codes.insert(targets[i].0, extractor.clone());
                assert(pieces.take(i as int + 1).drop_last() =~= pieces.take(i as int));
                i = i + 1;
            }
            assert(pieces.take(n as int) =~= pieces);
        },
    }
}

/// The code overrides of one plan: the extractor at every target and, for a
/// multicall, the dispatcher's code at the dispatcher.
pub fn overrides_for_plan(
    plan: &CallPlan,
    extractor: &Bytes,
    dispatcher: &Bytes,
) -> (r: SortedMap<Address, Bytes>)
    ensures
        r@ == plan_overrides(Map::empty(), plan@, *extractor, *dispatcher),
{
    let mut codes: SortedMap<Address, Bytes> = SortedMap::new();
    add_overrides(&mut codes, plan, extractor, dispatcher);
    codes
}

/// The code overrides of several plans, later ones over earlier ones.
pub open spec fn bundle_overrides(
    plans: Seq<PlanModel>,
    extractor: Bytes,
    dispatcher: Bytes,
) -> Map<Address, Bytes>
    decreases plans.len(),
{
    if plans.len() == 0 {
        Map::empty()
    } else {
        plan_overrides(
            bundle_overrides(plans.drop_last(), extractor, dispatcher),
            plans.last(),
            extractor,
            dispatcher,
        )
    }
}

/// The shared code overrides of a bundle of plans.
pub fn overrides_for_bundle(
    plans: &Vec<CallPlan>,
    extractor: &Bytes,
    dispatcher: &Bytes,
) -> (r: SortedMap<Address, Bytes>)
    ensures
        r@ == bundle_overrides(plans_of(plans@), *extractor, *dispatcher),
{
    let mut codes: SortedMap<Address, Bytes> = SortedMap::new();
    let ghost models = plans_of(plans@);
    let n: usize = plans.len();
    let mut i: usize = 0;
    assert(models.take(0) =~= Seq::<PlanModel>::empty());
    while i < n
        invariant
            i <= n == plans@.len(),
            models == plans_of(plans@),
            codes@ == bundle_overrides(models.take(i as int), *extractor, *dispatcher),
        decreases n - i,
    {
        add_overrides(&mut codes, &plans[i], extractor, dispatcher);
        assert(models.take(i as int + 1).drop_last() =~= models.take(i as int));
        i = i + 1;
    }
    assert(models.take(n as int) =~= models);
    codes
}

/// The number of slots of all plans together.
pub open spec fn plan_slot_total(plans: Seq<PlanModel>) -> nat
    decreases plans.len(),
{
    if plans.len() == 0 {
        0
    } else {
        plan_slot_total(plans.drop_last()) + plans.last().slot_count()
    }
}

/// Plans gathered greedily into requests of at most `budget` slots; a plan
/// over the budget gets a request of its own.
pub open spec fn grouped(
    rest: Seq<PlanModel>,
    current: Seq<PlanModel>,
    budget: nat,
) -> Seq<Seq<PlanModel>>
    decreases rest.len(),
{
    if rest.len() == 0 {
        if current.len() == 0 {
            Seq::empty()
        } else {
            seq![current]
        }
    } else if current.len() > 0 && plan_slot_total(current) + rest.first().slot_count() > budget {
        seq![current] + grouped(rest.drop_first(), seq![rest.first()], budget)
    } else {
        grouped(rest.drop_first(), current.push(rest.first()), budget)
    }
}

/// What a list of requests holds.
pub open spec fn groups_of(groups: Seq<Vec<CallPlan>>) -> Seq<Seq<PlanModel>> {
    groups.map_values(|g: Vec<CallPlan>| plans_of(g@))
}

/// Groups plans into `eth_callMany` requests within the slot budget.
pub fn group_plans_for_call_many(
    plans: Vec<CallPlan>,
    max_slots_per_request: usize,
) -> (requests: Vec<Vec<CallPlan>>)
    requires
        forall|i: int| 0 <= i < plans@.len() ==> (#[trigger] plans@[i])@.slot_count() <= usize::MAX,
    ensures
        groups_of(requests@) == grouped(
            plans_of(plans@),
            Seq::empty(),
            max_slots_per_request as nat,
        ),
{
    let mut requests: Vec<Vec<CallPlan>> = Vec::new();
    let mut current: Vec<CallPlan> = Vec::new();
    let mut current_slots: usize = 0;
    let ghost rest = plans_of(plans@);
    let ghost budget = max_slots_per_request as nat;
    let ghost whole = grouped(rest, Seq::empty(), budget);
    proof {
        assert(plans_of(current@) =~= Seq::<PlanModel>::empty());
        assert(rest.skip(0) =~= rest);
        assert(groups_of(requests@) + whole =~= whole);
    }
    for plan in it: plans
        invariant
            rest == plans_of(it.seq()),
            budget == max_slots_per_request as nat,
            forall|i: int|
                0 <= i < it.seq().len() ==> (#[trigger] it.seq()[i])@.slot_count() <= usize::MAX,
            current_slots == plan_slot_total(plans_of(current@)),
            whole == groups_of(requests@) + grouped(
                rest.skip(it.index()),
                plans_of(current@),
                budget,
            ),
    {
        let ghost i = it.index();
        let ghost left = rest.skip(i);
        proof {
            assert(it.seq()[i] == plan);
            assert(left.first() == plan@);
            assert(left.drop_first() =~= rest.skip(i + 1));
        }
        let slots: usize = plan.request_slot_count();
        let over: bool = current_slots > max_slots_per_request || slots > max_slots_per_request
            - current_slots;
        if current.len() > 0 && over {
            let mut full: Vec<CallPlan> = Vec::new();
            std::mem::swap(&mut full, &mut current);
            let ghost before = groups_of(requests@);
            requests.push(full);
            current_slots = 0;
            proof {
                assert(plans_of(current@) =~= Seq::<PlanModel>::empty());
                assert(Seq::<PlanModel>::empty().push(plan@) =~= seq![plan@]);
                assert(groups_of(requests@) =~= before.push(plans_of(full@)));
                let tail = grouped(left.drop_first(), seq![plan@], budget);
                assert(before + (seq![plans_of(full@)] + tail) =~= groups_of(requests@) + tail);
            }
        }
        let ghost gathered = plans_of(current@);
        proof {
            if gathered.len() == 0 {
                assert(plan_slot_total(gathered) == 0);
            }
            assert(gathered.push(plan@).drop_last() =~= gathered);
        }
        current_slots = current_slots + slots;
        let ghost model = plan@;
        current.push(plan);
        assert(plans_of(current@) =~= gathered.push(model));
    }
    assert(rest.skip(rest.len() as int).len() == 0);
    let ghost before = groups_of(requests@);
    if current.len() > 0 {
        requests.push(current);
        assert(groups_of(requests@) =~= before + seq![plans_of(current@)]);
    }
    assert(groups_of(requests@) =~= whole);
    requests
}

/// How a set of requests is shipped.
#[derive(Debug, PartialEq, Eq)]
pub enum Shipping {
    /// Every plan as an `eth_call` of its own.
    PerCall {
        /// The plans.
        plans: Vec<CallPlan>,
    },
    /// Bundles through `eth_callMany`, and the plans at the dispatcher's own
    /// address, which cannot share a bundle, as calls of their own.
    CallMany {
        /// The block context of the bundles.
        number: BlockNumberOrTag,
        /// The bundles.
        groups: Vec<Vec<CallPlan>>,
        /// The plans at the dispatcher's own address.
        conflicting: Vec<CallPlan>,
    },
}

/// Whether a plan's extractor override would replace the dispatcher's code.
pub open spec fn conflicts(plan: PlanModel) -> bool {
    plan matches PlanModel::Single { piece } && piece.0 == multicall3_address()
}

/// Whether `eth_callMany` can serve: it is selected, and the block is known by
/// height or name.
pub open spec fn call_many_block(config: BulkCallConfig, block: BlockId) -> Option<
    BlockNumberOrTag,
> {
    match (config.dispatch, block) {
        (CallDispatch::CallMany, BlockId::Number(number)) => Some(number),
        _ => None,
    }
}

/// The plans of `requests` under a configuration.
pub open spec fn config_plans(requests: Seq<(Address, U256)>, config: BulkCallConfig) -> Seq<
    PlanModel,
> {
    let sane = config.spec_normalized();
    planned(requests, sane.max_slots_per_call as nat, sane.max_targets_per_call as nat)
}

/// Whether `shipping` is how `requests` go out at `block` under `config`.
pub open spec fn is_shipping(
    shipping: Shipping,
    requests: Seq<(Address, U256)>,
    block: BlockId,
    config: BulkCallConfig,
) -> bool {
    let plans = config_plans(requests, config);
    match (call_many_block(config, block), shipping) {
        (None, Shipping::PerCall { plans: out }) => plans_of(out@) == plans,
        (Some(number), Shipping::CallMany { number: at, groups, conflicting }) => {
            &&& at == number
            &&& plans_of(conflicting@) == plans.filter(|p: PlanModel| conflicts(p))
            &&& groups_of(groups@) == grouped(
                plans.filter(|p: PlanModel| !conflicts(p)),
                Seq::empty(),
                config.spec_normalized().max_slots_per_request as nat,
            )
        },
        _ => false,
    }
}

/// Filtering one more plan keeps it or drops it.
proof fn lemma_plan_filter_push(
    plans: Seq<PlanModel>,
    plan: PlanModel,
    pred: spec_fn(PlanModel) -> bool,
)
    ensures
        plans.push(plan).filter(pred) == if pred(plan) {
            plans.filter(pred).push(plan)
        } else {
            plans.filter(pred)
        },
{
    reveal(Seq::filter);
    assert(plans.push(plan).drop_last() =~= plans);
}

/// Sorts out the plans that cannot share a bundle.
fn split_conflicting(plans: Vec<CallPlan>) -> (r: (Vec<CallPlan>, Vec<CallPlan>))
    requires
        forall|i: int| 0 <= i < plans@.len() ==> (#[trigger] plans@[i])@.slot_count() <= usize::MAX,
    ensures
        plans_of(r.0@) == plans_of(plans@).filter(|p: PlanModel| conflicts(p)),
        plans_of(r.1@) == plans_of(plans@).filter(|p: PlanModel| !conflicts(p)),
        forall|i: int| 0 <= i < r.1@.len() ==> (#[trigger] r.1@[i])@.slot_count() <= usize::MAX,
{
    let mut conflicting: Vec<CallPlan> = Vec::new();
    let mut bundleable: Vec<CallPlan> = Vec::new();
    let ghost all = plans_of(plans@);
    proof {
        reveal(Seq::filter);
        assert(all.take(0) =~= Seq::<PlanModel>::empty());
        assert(plans_of(conflicting@) =~= all.take(0).filter(|p: PlanModel| conflicts(p)));
        assert(plans_of(bundleable@) =~= all.take(0).filter(|p: PlanModel| !conflicts(p)));
    }
    for plan in it: plans
        invariant
            all == plans_of(it.seq()),
            plans_of(conflicting@) == all.take(it.index()).filter(|p: PlanModel| conflicts(p)),
            plans_of(bundleable@) == all.take(it.index()).filter(|p: PlanModel| !conflicts(p)),
            forall|i: int|
                0 <= i < it.seq().len() ==> (#[trigger] it.seq()[i])@.slot_count() <= usize::MAX,
            forall|i: int|
                0 <= i < bundleable@.len() ==> (#[trigger] bundleable@[i])@.slot_count()
                    <= usize::MAX,
    {
        let ghost i = it.index();
        let ghost model = plan@;
        proof {
            assert(it.seq()[i] == plan);
            assert(all.take(i + 1) =~= all.take(i).push(model));
            lemma_plan_filter_push(all.take(i), model, |p: PlanModel| conflicts(p));
            lemma_plan_filter_push(all.take(i), model, |p: PlanModel| !conflicts(p));
        }
        let alone: bool = match &plan {
            CallPlan::Single { target, .. } => *target == multicall3_address(),
            CallPlan::Multi { .. } => false,
        };
        let ghost before_a = plans_of(conflicting@);
        let ghost before_b = plans_of(bundleable@);
        if alone {
            conflicting.push(plan);
            assert(plans_of(conflicting@) =~= before_a.push(model));
        } else {
            bundleable.push(plan);
            assert(plans_of(bundleable@) =~= before_b.push(model));
        }
    }
    assert(all.take(all.len() as int) =~= all);
    (conflicting, bundleable)
}

/// Plans how `requests` go out at `block`: within the budgets of the
/// configuration, bundled where the configuration asks for it and the block
/// allows it.
pub fn plan_shipping(
    requests: &[(Address, U256)],
    block: BlockId,
    config: &BulkCallConfig,
) -> (shipping: Shipping)
    ensures
        is_shipping(shipping, requests@, block, *config),
{
    let sane: BulkCallConfig = config.normalized();
    let plans: Vec<CallPlan> = plan_calls(requests, &sane);
    let ghost n = sane.max_slots_per_call as nat;
    proof {
        law_plans_keep_budgets(requests@, n, sane.max_targets_per_call as nat);
        assert(all_within_budgets(plans_of(plans@), n, sane.max_targets_per_call as nat));
        assert forall|i: int| 0 <= i < plans@.len() implies (#[trigger] plans@[i])@.slot_count()
            <= usize::MAX by {
            assert(plans_of(plans@)[i] == plans@[i]@);
        }
    }
    let number: BlockNumberOrTag = match (config.dispatch, block) {
        (CallDispatch::CallMany, BlockId::Number(number)) => number,
        _ => {
            return Shipping::PerCall { plans };
        },
    };
    let (conflicting, bundleable) = split_conflicting(plans);
    let groups = group_plans_for_call_many(bundleable, sane.max_slots_per_request);
    Shipping::CallMany { number, groups, conflicting }
}

/// The number of `eth_call`s that a set of requests is split into.
pub fn planned_call_count(requests: &[(Address, U256)], config: &BulkCallConfig) -> (r: usize)
    ensures
        r == config_plans(requests@, *config).len(),
{
    plan_calls(requests, &config.normalized()).len()
}

/// One entry of an `eth_callMany` response.
#[derive(Debug, PartialEq, Eq)]
pub struct CallManyEntry {
    /// What the transaction returned, if it succeeded.
    pub value: Option<Bytes>,
    /// What the provider reported, if it failed.
    pub error: Option<String>,
}

/// Whether `out` is what one entry of a bundle amounts to for its plan.
pub open spec fn is_entry_results(
    plan: PlanModel,
    entry: CallManyEntry,
    out: Seq<SlotResult>,
) -> bool {
    match entry.value {
        Some(data) => match plan {
            PlanModel::Single { piece } => out == direct_results(piece, data@),
            PlanModel::Multi { pieces } => is_decoded_response(pieces, data@, out),
        },
        None => out == every_slot_failed(
            plan.pieces(),
            StorageFetchError::CallManyFailed { reported: entry.error },
        ),
    }
}

/// The results of the plans of a bundle, one plan after the other.
pub open spec fn concat_results(parts: Seq<Seq<SlotResult>>) -> Seq<SlotResult>
    decreases parts.len(),
{
    if parts.len() == 0 {
        Seq::empty()
    } else {
        concat_results(parts.drop_last()) + parts.last()
    }
}

/// Whether `parts` holds the results of every plan of a bundle.
pub open spec fn are_bundle_results(
    plans: Seq<PlanModel>,
    entries: Seq<CallManyEntry>,
    parts: Seq<Seq<SlotResult>>,
) -> bool {
    &&& parts.len() == plans.len() == entries.len()
    &&& forall|i: int|
        0 <= i < plans.len() ==> is_entry_results(plans[i], entries[i], #[trigger] parts[i])
}

/// Decodes the entries of an `eth_callMany` response, one per plan of the
/// bundle. Another number of entries is a failure of the whole request.
pub fn decode_call_many(plans: &Vec<CallPlan>, entries: Vec<CallManyEntry>) -> (r: Result<
    Vec<SlotResult>,
    StorageFetchError,
>)
    ensures
        match r {
            Ok(out) => entries@.len() == plans@.len() && exists|parts: Seq<Seq<SlotResult>>|
                are_bundle_results(plans_of(plans@), entries@, parts) && out@
                    == #[trigger] concat_results(parts),
            Err(error) => entries@.len() != plans@.len() && error
                == StorageFetchError::CallManyCount {
                returned: entries@.len() as usize,
                expected: plans@.len() as usize,
            },
        },
{
    if entries.len() != plans.len() {
        return Err(
            StorageFetchError::CallManyCount { returned: entries.len(), expected: plans.len() },
        );
    }
    let mut out: Vec<SlotResult> = Vec::new();
    let n: usize = plans.len();
    let mut i: usize = 0;
    let ghost mut parts: Seq<Seq<SlotResult>> = Seq::empty();
    let ghost models = plans_of(plans@);
    while i < n
        invariant
            i <= n == plans@.len() == entries@.len(),
            models == plans_of(plans@),
            parts.len() == i,
            forall|j: int|
                0 <= j < i ==> is_entry_results(models[j], entries@[j], #[trigger] parts[j]),
            out@ == concat_results(parts),
        decreases n - i,
    {
        let mut part: Vec<SlotResult> = match &entries[i].value {
            Some(data) => decode_plan_response(&plans[i], data.as_slice()),
            None => {
                let reported: Option<String> = match &entries[i].error {
                    Some(text) => Some(text.clone()),
                    None => None,
                };
                plan_error_results(&plans[i], &StorageFetchError::CallManyFailed { reported })
            },
        };
        proof {
            assert(is_entry_results(models[i as int], entries@[i as int], part@));
            assert(parts.push(part@).drop_last() =~= parts);
            parts = parts.push(part@);
        }
        out.append(&mut part);
        i = i + 1;
    }
    proof {
        assert(are_bundle_results(models, entries@, parts));
    }
    Ok(out)
}

} // verus!
