//! When an access list is worth sending.

use crate::access_list::{
    data_gas, entry_total, execution_savings, kept, outweighs_posting, worth_sending,
    AccessListPricing, Entry,
};
use crate::foreign::access_list_rlp;
use crate::primitives::{pow_256, Address, U256};
use vstd::prelude::*;

verus! {

/// The addresses and keys of lists add up: an empty list has none, an entry has its
/// address and its keys, and two lists one after the other have those of both.
pub proof fn law_entries_add_up(first: Seq<Entry>, second: Seq<Entry>, entry: Entry)
    ensures
        entry_total(Seq::empty()) == 0,
        entry_total(seq![entry]) == 1 + entry.1.len(),
        entry_total(first + second) == entry_total(first) + entry_total(second),
        entry_total(first) >= first.len(),
    decreases first.len() + second.len(),
{
    assert(seq![entry].drop_last() =~= Seq::empty());
    assert(entry_total(seq![entry].drop_last()) == 0);
    if first.len() > 0 {
        law_entries_add_up(first.drop_last(), Seq::empty(), entry);
    }
    if second.len() == 0 {
        assert(first + second =~= first);
    } else {
        assert((first + second).drop_last() =~= first + second.drop_last());
        assert((first + second).last() == second.last());
        law_entries_add_up(first, second.drop_last(), entry);
    }
}

/// The calldata gas of bytes adds up: none for no bytes, four for a zero byte,
/// sixteen for any other, and for bytes one after the other that of both.
pub proof fn law_data_gas_adds_up(first: Seq<u8>, second: Seq<u8>, byte: u8)
    ensures
        data_gas(Seq::empty()) == 0,
        byte == 0 ==> data_gas(seq![byte]) == 4,
        byte != 0 ==> data_gas(seq![byte]) == 16,
        data_gas(first + second) == data_gas(first) + data_gas(second),
    decreases second.len(),
{
    assert(seq![byte].drop_last() =~= Seq::empty());
    assert(data_gas(seq![byte].drop_last()) == 0);
    if second.len() == 0 {
        assert(first + second =~= first);
    } else {
        assert((first + second).drop_last() =~= first + second.drop_last());
        assert((first + second).last() == second.last());
        law_data_gas_adds_up(first, second.drop_last(), byte);
    }
}

/// A list saves 100 gas at the price of gas for each address and key, as long as that
/// is a word.
pub proof fn law_savings_are_a_hundred_gas_each(list: Seq<Entry>, l2_gas_price: nat)
    requires
        entry_total(list) * 100 < pow_256(),
        entry_total(list) * 100 * l2_gas_price < pow_256(),
    ensures
        execution_savings(list, l2_gas_price) == entry_total(list) * 100 * l2_gas_price,
{
    let saved = entry_total(list) * 100;
    vstd::arithmetic::div_mod::lemma_small_mod(saved, pow_256() as nat);
    vstd::arithmetic::div_mod::lemma_small_mod(saved * l2_gas_price, pow_256() as nat);
}

/// An empty list is never sent, and without a data fee every other list is.
pub proof fn law_lists_are_sent_where_data_is_free(list: Seq<Entry>, pricing: AccessListPricing)
    ensures
        list.len() == 0 ==> !worth_sending(list, pricing),
        list.len() > 0 && pricing is L1 ==> worth_sending(list, pricing),
{
}

/// On an OP Stack chain the decision depends on the two data fees only through what
/// the list adds: raising both by the same amount changes nothing.
pub proof fn law_op_stack_looks_at_the_difference(
    list: Seq<Entry>,
    l2_gas_price: U256,
    l1_fee_without: U256,
    l1_fee_with: U256,
    raised_without: U256,
    raised_with: U256,
)
    requires
        raised_without@ - l1_fee_without@ == raised_with@ - l1_fee_with@,
    ensures
        worth_sending(
            list,
            AccessListPricing::OpStack { l2_gas_price, l1_fee_without, l1_fee_with },
        ) == worth_sending(
            list,
            AccessListPricing::OpStack {
                l2_gas_price,
                l1_fee_without: raised_without,
                l1_fee_with: raised_with,
            },
        ),
{
}

/// On an OP Stack chain a list with entries that adds nothing to the data fee is kept
/// where it saves something, and only there. One that adds something is kept only
/// where it saves more than that.
pub proof fn law_op_stack_weighs_savings_against_the_added_fee(
    list: Seq<Entry>,
    l2_gas_price: U256,
    l1_fee_without: U256,
    l1_fee_with: U256,
)
    requires
        list.len() > 0,
        entry_total(list) * 100 < pow_256(),
        entry_total(list) * 100 * l2_gas_price@ < pow_256(),
    ensures
        ({
            let sent = worth_sending(
                list,
                AccessListPricing::OpStack { l2_gas_price, l1_fee_without, l1_fee_with },
            );
            let saved = entry_total(list) * 100 * l2_gas_price@;
            &&& l1_fee_with@ <= l1_fee_without@ ==> (sent <==> l2_gas_price@ > 0)
            &&& l1_fee_with@ > l1_fee_without@ ==> (sent <==> l1_fee_without@ + saved
                > l1_fee_with@)
        }),
{
    law_savings_are_a_hundred_gas_each(list, l2_gas_price@);
    law_entries_add_up(list, Seq::empty(), list[0]);
    let n = entry_total(list);
    let price = l2_gas_price@;
    assert(n * 100 * price > 0 <==> price > 0) by (nonlinear_arith)
        requires
            n > 0,
            price >= 0,
    ;
}

/// On an OP Stack chain a list that saves something, however its savings wrap, is
/// kept where it adds nothing; and a list that is not kept is not kept where it adds
/// more, or where the fee without it is lower.
pub proof fn law_op_stack_never_gains_from_a_fee(
    list: Seq<Entry>,
    l2_gas_price: U256,
    l1_fee_without: U256,
    l1_fee_with: U256,
    lower_without: U256,
    higher_with: U256,
)
    requires
        lower_without@ <= l1_fee_without@,
        l1_fee_with@ <= higher_with@,
    ensures
        ({
            let sent = worth_sending(
                list,
                AccessListPricing::OpStack { l2_gas_price, l1_fee_without, l1_fee_with },
            );
            let sent_dearer = worth_sending(
                list,
                AccessListPricing::OpStack {
                    l2_gas_price,
                    l1_fee_without: lower_without,
                    l1_fee_with: higher_with,
                },
            );
            &&& sent_dearer ==> sent
            &&& list.len() > 0 && (entry_total(list) * 100 % pow_256() * l2_gas_price@) % pow_256()
                > 0 && l1_fee_with@ <= l1_fee_without@ ==> sent
        }),
{
}

/// On Arbitrum a list with entries is kept where both prices are known and what it
/// saves is more than what posting its encoding costs: 100 gas for each address and
/// key at the price of gas, against the calldata gas of the encoding at the base fee.
pub proof fn law_arbitrum_weighs_savings_against_posting(
    list: Seq<Entry>,
    l2_gas_price: U256,
    l1_base_fee: U256,
)
    requires
        entry_total(list) * 100 < pow_256(),
        entry_total(list) * 100 * l2_gas_price@ < pow_256(),
    ensures
        ({
            let sent = worth_sending(
                list,
                AccessListPricing::Arbitrum { l2_gas_price, l1_base_fee },
            );
            let posting = data_gas(access_list_rlp(list)) * l1_base_fee@;
            &&& sent ==> list.len() > 0 && l2_gas_price@ > 0 && l1_base_fee@ > 0
            &&& posting < pow_256() && list.len() > 0 && l2_gas_price@ > 0 && l1_base_fee@ > 0
                ==> (sent <==> entry_total(list) * 100 * l2_gas_price@ > posting)
        }),
{
    law_savings_are_a_hundred_gas_each(list, l2_gas_price@);
    let posting = data_gas(access_list_rlp(list)) * l1_base_fee@;
    if posting < pow_256() {
        vstd::arithmetic::div_mod::lemma_small_mod(posting, pow_256() as nat);
    }
}

/// More addresses and keys for the same posting cost, or a lower posting cost for as
/// many, never make a list less worth posting, as long as all amounts are words.
pub proof fn law_posting_pays_off_monotonically(
    entries: nat,
    more_entries: nat,
    posted_gas: nat,
    less_gas: nat,
    l2_gas_price: nat,
    l1_base_fee: nat,
)
    requires
        entries <= more_entries,
        less_gas <= posted_gas,
        more_entries * 100 < pow_256(),
        more_entries * 100 * l2_gas_price < pow_256(),
        posted_gas * l1_base_fee < pow_256(),
    ensures
        outweighs_posting(entries, posted_gas, l2_gas_price, l1_base_fee) ==> outweighs_posting(
            more_entries,
            less_gas,
            l2_gas_price,
            l1_base_fee,
        ),
        outweighs_posting(entries, posted_gas, l2_gas_price, l1_base_fee) ==> l2_gas_price > 0
            && l1_base_fee > 0 && entries * 100 * l2_gas_price > posted_gas * l1_base_fee,
        l2_gas_price > 0 && l1_base_fee > 0 && entries * 100 * l2_gas_price > posted_gas
            * l1_base_fee ==> outweighs_posting(entries, posted_gas, l2_gas_price, l1_base_fee),
{
    let word = pow_256() as nat;
    assert(entries * 100 * l2_gas_price <= more_entries * 100 * l2_gas_price) by (nonlinear_arith)
        requires
            entries <= more_entries,
    ;
    assert(less_gas * l1_base_fee <= posted_gas * l1_base_fee) by (nonlinear_arith)
        requires
            less_gas <= posted_gas,
    ;
    vstd::arithmetic::div_mod::lemma_small_mod(entries * 100, word);
    vstd::arithmetic::div_mod::lemma_small_mod(more_entries * 100, word);
    vstd::arithmetic::div_mod::lemma_small_mod(entries * 100 * l2_gas_price, word);
    vstd::arithmetic::div_mod::lemma_small_mod(more_entries * 100 * l2_gas_price, word);
    vstd::arithmetic::div_mod::lemma_small_mod(posted_gas * l1_base_fee, word);
    vstd::arithmetic::div_mod::lemma_small_mod(less_gas * l1_base_fee, word);
}

/// What is set on a transaction names neither its sender nor its destination nor an
/// account that was excluded; every other entry stays.
pub proof fn law_warm_accounts_are_dropped(
    list: Seq<Entry>,
    to: Option<Address>,
    sender: Address,
    exclude: Seq<Address>,
    entry: Entry,
)
    ensures
        ({
            let set = list.filter(|e: Entry| kept(e, to, sender, exclude));
            set.contains(entry) <==> {
                &&& list.contains(entry)
                &&& entry.0 != sender
                &&& to is None || to->0 != entry.0
                &&& forall|i: int| 0 <= i < exclude.len() ==> #[trigger] exclude[i] != entry.0
            }
        }),
{
    let pred = |e: Entry| kept(e, to, sender, exclude);
    let set = list.filter(pred);
    if set.contains(entry) {
        let i = set.index_of(entry);
        list.lemma_filter_contains_rev(pred, entry);
        list.lemma_filter_pred(pred, i);
        assert(kept(entry, to, sender, exclude));
        assert forall|k: int| 0 <= k < exclude.len() implies #[trigger] exclude[k] != entry.0 by {
            assert(exclude.contains(exclude[k]));
        }
    }
    if list.contains(entry) && entry.0 != sender && (to is None || to->0 != entry.0) && (forall|
        i: int,
    |
        0 <= i < exclude.len() ==> #[trigger] exclude[i] != entry.0) {
        assert(!exclude.contains(entry.0));
        assert(pred(entry));
        let i = list.index_of(entry);
        list.lemma_filter_contains(pred, i);
    }
}

} // verus!
