//! How traces are read.

use crate::cache::trace::{
    address_of, count_of, find, json_code, json_count, json_word, known, listed, listed_slots,
    member, submembers, with_cleared, with_deletion, with_losses, with_posts, word_of, DeltaModel,
    Json,
};
use crate::collections::{in_order, lemma_in_order_lists};
use crate::errors::TraceFault;
use crate::primitives::{be_value, pow_256, Address, U256};
use crate::text::{
    digit_value, hex_digit, hex_digits, hex_mark, hex_text, lemma_hex_comes_back, numeral,
    without_hex_mark, without_underscores,
};
use vstd::prelude::*;

verus! {

/// A member is found by its name: the first of that name, and nothing where there is
/// none.
pub proof fn law_members_are_found_by_name(members: Seq<(String, Json)>, name: Seq<char>)
    ensures
        forall|at: int|
            0 <= at < members.len() && (#[trigger] members[at]).0@ == name && (forall|i: int|
                0 <= i < at ==> (#[trigger] members[i]).0@ != name) ==> find(members, name) == Some(
                members[at].1,
            ),
        find(members, name) is None <==> forall|i: int|
            0 <= i < members.len() ==> (#[trigger] members[i]).0@ != name,
    decreases members.len(),
{
    if members.len() > 0 {
        let rest = members.drop_first();
        law_members_are_found_by_name(rest, name);
        assert forall|i: int| 0 <= i < rest.len() implies #[trigger] rest[i] == members[i + 1] by {}
        assert forall|at: int|
            0 <= at < members.len() && (#[trigger] members[at]).0@ == name && (forall|i: int|
                0 <= i < at ==> (#[trigger] members[i]).0@ != name) implies find(members, name)
            == Some(members[at].1) by {
            if at > 0 {
                assert(members[0].0@ != name);
                assert(rest[at - 1] == members[at]);
                assert forall|i: int| 0 <= i < at - 1 implies (#[trigger] rest[i]).0@ != name by {
                    assert(members[i + 1].0@ != name);
                }
            }
        }
        if find(members, name) is None {
            assert forall|i: int| 0 <= i < members.len() implies (#[trigger] members[i]).0@
                != name by {
                if i > 0 {
                    assert(rest[i - 1].0@ != name);
                }
            }
        }
        if forall|i: int| 0 <= i < members.len() ==> (#[trigger] members[i]).0@ != name {
            assert(members[0].0@ != name);
            assert forall|i: int| 0 <= i < rest.len() implies (#[trigger] rest[i]).0@ != name by {
                assert(members[i + 1].0@ != name);
            }
        }
    }
}

/// What slots of an account are told is the value told last for each; slots that none is
/// told of are as they were. Nothing but storage changes.
pub proof fn law_told_slots_are_known(delta: DeltaModel, slots: Seq<(String, Json)>, slot: U256)
    requires
        delta.with_slots(slots) is Ok,
    ensures
        ({
            let after = delta.with_slots(slots)->Ok_0;
            &&& after.balance == delta.balance
            &&& after.nonce == delta.nonce
            &&& after.code == delta.code
            &&& forall|at: int|
                0 <= at < slots.len() && word_of((#[trigger] slots[at]).0) == Ok::<
                    U256,
                    TraceFault,
                >(slot) && (forall|later: int|
                    at < later < slots.len() ==> word_of((#[trigger] slots[later]).0) != Ok::<
                        U256,
                        TraceFault,
                    >(slot)) ==> after.storage.contains_key(slot) && json_word(slots[at].1) == Ok::<
                    U256,
                    TraceFault,
                >(after.storage[slot])
            &&& (forall|i: int|
                0 <= i < slots.len() ==> word_of((#[trigger] slots[i]).0) != Ok::<U256, TraceFault>(
                    slot,
                )) ==> after.storage.contains_key(slot) == delta.storage.contains_key(slot) && (
            delta.storage.contains_key(slot) ==> after.storage[slot] == delta.storage[slot])
        }),
    decreases slots.len(),
{
    if slots.len() > 0 {
        let rest = slots.drop_first();
        let key = word_of(slots[0].0)->Ok_0;
        let value = json_word(slots[0].1)->Ok_0;
        let next = DeltaModel { storage: delta.storage.insert(key, value), ..delta };
        law_told_slots_are_known(next, rest, slot);
        let after = delta.with_slots(slots)->Ok_0;
        assert forall|i: int| 0 <= i < rest.len() implies #[trigger] rest[i] == slots[i + 1] by {}
        assert forall|at: int|
            0 <= at < slots.len() && word_of((#[trigger] slots[at]).0) == Ok::<U256, TraceFault>(
                slot,
            ) && (forall|later: int|
                at < later < slots.len() ==> word_of((#[trigger] slots[later]).0) != Ok::<
                    U256,
                    TraceFault,
                >(slot)) implies after.storage.contains_key(slot) && json_word(slots[at].1)
            == Ok::<U256, TraceFault>(after.storage[slot]) by {
            if at > 0 {
                assert(rest[at - 1] == slots[at]);
                assert forall|later: int| at - 1 < later < rest.len() implies word_of(
                    (#[trigger] rest[later]).0,
                ) != Ok::<U256, TraceFault>(slot) by {
                    assert(word_of(slots[later + 1].0) != Ok::<U256, TraceFault>(slot));
                }
            } else {
                assert forall|i: int| 0 <= i < rest.len() implies word_of((#[trigger] rest[i]).0)
                    != Ok::<U256, TraceFault>(slot) by {
                    assert(word_of(slots[i + 1].0) != Ok::<U256, TraceFault>(slot));
                }
            }
        }
        if forall|i: int|
            0 <= i < slots.len() ==> word_of((#[trigger] slots[i]).0) != Ok::<U256, TraceFault>(
                slot,
            ) {
            assert forall|i: int| 0 <= i < rest.len() implies word_of((#[trigger] rest[i]).0)
                != Ok::<U256, TraceFault>(slot) by {
                assert(word_of(slots[i + 1].0) != Ok::<U256, TraceFault>(slot));
            }
            assert(word_of(slots[0].0) != Ok::<U256, TraceFault>(slot));
        }
    }
}

/// What an account ended with is known of it: each field that is told as it is told, and
/// each that is not as it was known.
pub proof fn law_told_fields_are_known(delta: DeltaModel, account: Json)
    requires
        delta.with_post(account) is Ok,
    ensures
        ({
            let after = delta.with_post(account)->Ok_0;
            &&& match member(account, "balance"@) {
                Some(told) => after.balance is Some && json_word(told) == Ok::<U256, TraceFault>(
                    after.balance->0,
                ),
                None => after.balance == delta.balance,
            }
            &&& match member(account, "nonce"@) {
                Some(told) => after.nonce is Some && json_count(told) == Ok::<u64, TraceFault>(
                    after.nonce->0,
                ),
                None => after.nonce == delta.nonce,
            }
            &&& match member(account, "code"@) {
                Some(told) => after.code is Some && json_code(told) == Ok::<Seq<u8>, TraceFault>(
                    after.code->0,
                ),
                None => after.code == delta.code,
            }
            &&& submembers(account, "storage"@) is None ==> after.storage == delta.storage
        }),
{
    let one = delta.with_balance(account)->Ok_0;
    let two = one.with_nonce(account)->Ok_0;
    let three = two.with_code(account)->Ok_0;
    if let Some(slots) = submembers(account, "storage"@) {
        law_told_slots_are_known(three, slots, U256::spec_zero());
    }
}

/// Accounts that no part of a trace is about are as they were known.
pub proof fn law_untold_accounts_stay(
    deltas: Map<Address, DeltaModel>,
    post: Seq<(String, Json)>,
    address: Address,
)
    requires
        with_posts(deltas, post) is Ok,
        forall|i: int|
            0 <= i < post.len() ==> address_of((#[trigger] post[i]).0) != Ok::<Address, TraceFault>(
                address,
            ),
    ensures
        ({
            let after = with_posts(deltas, post)->Ok_0;
            &&& after.contains_key(address) == deltas.contains_key(address)
            &&& deltas.contains_key(address) ==> after[address] == deltas[address]
        }),
    decreases post.len(),
{
    if post.len() > 0 {
        let rest = post.drop_first();
        let named = address_of(post[0].0)->Ok_0;
        let delta = known(deltas, named).with_post(post[0].1)->Ok_0;
        assert(address_of(post[0].0) != Ok::<Address, TraceFault>(address));
        assert forall|i: int| 0 <= i < rest.len() implies address_of((#[trigger] rest[i]).0)
            != Ok::<Address, TraceFault>(address) by {
            assert(rest[i] == post[i + 1]);
        }
        law_untold_accounts_stay(deltas.insert(named, delta), rest, address);
    }
}

/// What an account ended with is known of it once all accounts were told of: where it is
/// told of once, as told, over what was known of it.
pub proof fn law_told_accounts_are_known(
    deltas: Map<Address, DeltaModel>,
    post: Seq<(String, Json)>,
    at: int,
    address: Address,
)
    requires
        with_posts(deltas, post) is Ok,
        0 <= at < post.len(),
        address_of(post[at].0) == Ok::<Address, TraceFault>(address),
        forall|i: int|
            0 <= i < post.len() && i != at ==> address_of((#[trigger] post[i]).0) != Ok::<
                Address,
                TraceFault,
            >(address),
    ensures
        ({
            let after = with_posts(deltas, post)->Ok_0;
            &&& after.contains_key(address)
            &&& known(deltas, address).with_post(post[at].1) == Ok::<DeltaModel, TraceFault>(
                after[address],
            )
        }),
    decreases post.len(),
{
    let rest = post.drop_first();
    let named = address_of(post[0].0)->Ok_0;
    let delta = known(deltas, named).with_post(post[0].1)->Ok_0;
    let next = deltas.insert(named, delta);
    assert forall|i: int| 0 <= i < rest.len() implies #[trigger] rest[i] == post[i + 1] by {}
    if at == 0 {
        assert forall|i: int| 0 <= i < rest.len() implies address_of((#[trigger] rest[i]).0)
            != Ok::<Address, TraceFault>(address) by {
            assert(address_of(post[i + 1].0) != Ok::<Address, TraceFault>(address));
        }
        law_untold_accounts_stay(next, rest, address);
    } else {
        assert(address_of(post[0].0) != Ok::<Address, TraceFault>(address));
        assert(rest[at - 1] == post[at]);
        assert forall|i: int| 0 <= i < rest.len() && i != at - 1 implies address_of(
            (#[trigger] rest[i]).0,
        ) != Ok::<Address, TraceFault>(address) by {
            assert(address_of(post[i + 1].0) != Ok::<Address, TraceFault>(address));
        }
        law_told_accounts_are_known(next, rest, at - 1, address);
    }
}

/// What was lost touches only the accounts that were there before: every other account
/// is as it was known after the accounts' ends were told.
pub proof fn law_losses_touch_only_what_was_there(
    deltas: Map<Address, DeltaModel>,
    pre: Seq<(String, Json)>,
    post: Seq<(String, Json)>,
    address: Address,
)
    requires
        with_losses(deltas, pre, post) is Ok,
        forall|i: int|
            0 <= i < pre.len() ==> address_of((#[trigger] pre[i]).0) != Ok::<Address, TraceFault>(
                address,
            ),
    ensures
        ({
            let after = with_losses(deltas, pre, post)->Ok_0;
            &&& after.contains_key(address) == deltas.contains_key(address)
            &&& deltas.contains_key(address) ==> after[address] == deltas[address]
        }),
    decreases pre.len(),
{
    if pre.len() > 0 {
        let rest = pre.drop_first();
        let named = address_of(pre[0].0)->Ok_0;
        let ended = find(post, pre[0].0@);
        let deleted = with_deletion(deltas, named, ended);
        assert(address_of(pre[0].0) != Ok::<Address, TraceFault>(address));
        assert forall|i: int| 0 <= i < rest.len() implies address_of((#[trigger] rest[i]).0)
            != Ok::<Address, TraceFault>(address) by {
            assert(rest[i] == pre[i + 1]);
        }
        match submembers(pre[0].1, "storage"@) {
            Some(slots) => {
                let left = crate::cache::trace::post_slots(ended);
                lemma_cleared_elsewhere(deleted, named, slots, left, address);
                let cleared = with_cleared(deleted, named, slots, left)->Ok_0;
                law_losses_touch_only_what_was_there(cleared, rest, post, address);
            },
            None => {
                law_losses_touch_only_what_was_there(deleted, rest, post, address);
            },
        }
    }
}

/// Clearing slots of one account touches no other.
proof fn lemma_cleared_elsewhere(
    deltas: Map<Address, DeltaModel>,
    named: Address,
    slots: Seq<(String, Json)>,
    left: Option<Seq<(String, Json)>>,
    address: Address,
)
    requires
        address != named,
        with_cleared(deltas, named, slots, left) is Ok,
    ensures
        ({
            let after = with_cleared(deltas, named, slots, left)->Ok_0;
            &&& after.contains_key(address) == deltas.contains_key(address)
            &&& deltas.contains_key(address) ==> after[address] == deltas[address]
        }),
    decreases slots.len(),
{
    if slots.len() > 0 {
        let kept = left matches Some(held) && find(held, slots[0].0@) is Some;
        if kept {
            lemma_cleared_elsewhere(deltas, named, slots.drop_first(), left, address);
        } else {
            let slot = word_of(slots[0].0)->Ok_0;
            let delta = known(deltas, named);
            let next = deltas.insert(
                named,
                DeltaModel { storage: delta.storage.insert(slot, U256::spec_zero()), ..delta },
            );
            lemma_cleared_elsewhere(next, named, slots.drop_first(), left, address);
        }
    }
}

/// The accounts of a block's changes are listed in order, each once with what is known
/// of it, and their slots are listed in order, each once with its value.
pub proof fn law_changes_are_listed(changes: Map<Address, DeltaModel>, address: Address, slot: U256)
    requires
        changes.dom().finite(),
        changes.contains_key(address) ==> changes[address].storage.dom().finite(),
    ensures
        listed(changes).len() == in_order(changes.dom()).len(),
        changes.contains_key(address) <==> exists|i: int|
            0 <= i < listed(changes).len() && (#[trigger] listed(changes)[i]).address == address,
        forall|i: int|
            0 <= i < listed(changes).len() && (#[trigger] listed(changes)[i]).address == address
                ==> {
                &&& listed(changes)[i].balance == changes[address].balance
                &&& listed(changes)[i].nonce == changes[address].nonce
                &&& listed(changes)[i].code == changes[address].code
                &&& changes[address].storage.contains_key(slot) <==> exists|k: int|
                    0 <= k < listed(changes)[i].storage.len() && (#[trigger] listed(
                        changes,
                    )[i].storage[k]).slot == slot
                &&& forall|k: int|
                    0 <= k < listed(changes)[i].storage.len() && (#[trigger] listed(
                        changes,
                    )[i].storage[k]).slot == slot ==> listed(changes)[i].storage[k].value
                        == changes[address].storage[slot]
            },
        forall|i: int, j: int|
            0 <= i < j < listed(changes).len() ==> (#[trigger] listed(changes)[i]).address != (
            #[trigger] listed(changes)[j]).address,
{
    let order = in_order(changes.dom());
    let all = listed(changes);
    lemma_in_order_lists(changes.dom());
    assert forall|i: int| 0 <= i < all.len() implies (#[trigger] all[i]).address == order[i] by {}
    if changes.contains_key(address) {
        assert(order.to_set().contains(address));
        let i = order.index_of(address);
        assert(all[i].address == address);
        let slots = changes[address].storage;
        let keys = in_order(slots.dom());
        lemma_in_order_lists(slots.dom());
        let written = listed_slots(slots);
        assert forall|k: int| 0 <= k < written.len() implies (#[trigger] written[k]).slot
            == keys[k] && written[k].value == slots[keys[k]] by {}
        if slots.contains_key(slot) {
            assert(keys.to_set().contains(slot));
            let k = keys.index_of(slot);
            assert(written[k].slot == slot);
            assert forall|j: int|
                0 <= j < all.len() && (#[trigger] all[j]).address == address implies exists|k: int|
                0 <= k < all[j].storage.len() && (#[trigger] all[j].storage[k]).slot == slot by {
                assert(all[j].storage == written);
                assert(all[j].storage[k].slot == slot);
            }
        } else {
            assert forall|k: int| 0 <= k < written.len() implies (#[trigger] written[k]).slot
                != slot by {
                assert(keys.to_set().contains(keys[k]));
            }
        }
    }
    if exists|i: int| 0 <= i < all.len() && (#[trigger] all[i]).address == address {
        let i = choose|i: int| 0 <= i < all.len() && (#[trigger] all[i]).address == address;
        assert(order.to_set().contains(order[i]));
    }
}

/// A numeral with one more digit is the number so far, times the radix, plus the digit;
/// a numeral with something else in it is none.
pub proof fn law_numerals_are_positional(digits: Seq<char>, digit: char, radix: nat)
    ensures
        numeral(Seq::empty(), radix) == Some(0nat),
        numeral(digits, radix) is Some && digit_value(digit, radix) is Some ==> numeral(
            digits.push(digit),
            radix,
        ) == Some(numeral(digits, radix)->0 * radix + digit_value(digit, radix)->0),
        numeral(digits, radix) is None || digit_value(digit, radix) is None ==> numeral(
            digits.push(digit),
            radix,
        ) is None,
{
    assert(digits.push(digit).drop_last() =~= digits);
}

/// A digit has its value: the ten figures in every radix above it, and letters of either
/// case from ten on.
pub proof fn law_digits_have_values(digit: char, radix: nat)
    requires
        radix <= 36,
    ensures
        '0' <= digit <= '9' && (digit as int - '0' as int) < radix ==> digit_value(digit, radix)
            == Some((digit as int - '0' as int) as nat),
        'a' <= digit <= 'f' && radix == 16 ==> digit_value(digit, radix) == Some(
            (digit as int - 'a' as int + 10) as nat,
        ),
        'A' <= digit <= 'F' && radix == 16 ==> digit_value(digit, radix) == Some(
            (digit as int - 'A' as int + 10) as nat,
        ),
        digit_value(digit, radix) matches Some(value) ==> value < radix,
{
}

/// A quantity that was written in hexadecimal digits is read back as itself.
pub proof fn law_written_quantities_are_read_back(value: nat)
    ensures
        numeral(hex_digits(value), 16) == Some(value),
        hex_digits(value).len() >= 1,
    decreases value,
{
    if value < 16 {
        lemma_hex_digit(value);
        let one = seq![hex_digit(value)];
        assert(one.drop_last() =~= Seq::empty());
        assert(numeral(one.drop_last(), 16) == Some(0nat));
    } else {
        law_written_quantities_are_read_back(value / 16);
        lemma_hex_digit(value % 16);
        let high = hex_digits(value / 16);
        assert(high.push(hex_digit(value % 16)).drop_last() =~= high);
    }
}

/// A hexadecimal digit is read back as its value.
proof fn lemma_hex_digit(value: nat)
    requires
        value < 16,
    ensures
        digit_value(hex_digit(value), 16) == Some(value),
{
}

/// A word is read from a text in hexadecimal behind the mark, and in decimal without it;
/// it must fit into a word.
pub proof fn law_words_are_read_from_text(text: String, digits: Seq<char>, value: nat)
    requires
        text@ == hex_mark() + digits,
        without_underscores(digits) == digits,
    ensures
        numeral(digits, 16) == Some(value) && value < pow_256() ==> word_of(text) == Ok::<
            U256,
            TraceFault,
        >(U256::spec_from(value)),
        numeral(digits, 16) == Some(value) && value >= pow_256() ==> word_of(text) is Err,
        numeral(digits, 16) is None ==> word_of(text) is Err,
{
    assert(hex_mark().is_prefix_of(text@)) by {
        assert(hex_mark() =~= text@.subrange(0, 2));
    }
    assert(text@.skip(2) =~= digits);
}

/// A number of a word's size that was written as a quantity is read back from its text.
pub proof fn law_quantities_are_counts(text: String, value: u64)
    requires
        text@ == hex_mark() + hex_digits(value as nat),
    ensures
        count_of(text) == Ok::<u64, TraceFault>(value),
{
    law_written_quantities_are_read_back(value as nat);
    assert(hex_mark().is_prefix_of(text@)) by {
        assert(hex_mark() =~= text@.subrange(0, 2));
    }
    let digits = hex_digits(value as nat);
    assert(text@.skip(2) =~= digits);
    lemma_first_digit(value as nat);
}

/// The first digit of a quantity is no sign.
proof fn lemma_first_digit(value: nat)
    ensures
        hex_digits(value).len() >= 1,
        hex_digits(value)[0] != '+',
    decreases value,
{
    if value >= 16 {
        lemma_first_digit(value / 16);
    }
}

/// The mark of hexadecimal digits is taken off in either case, and a text without it stays.
pub proof fn law_marks_are_taken_off(digits: Seq<char>, text: Seq<char>)
    ensures
        without_hex_mark(seq!['0', 'x'] + digits) == digits,
        without_hex_mark(seq!['0', 'X'] + digits) == digits,
        text.len() < 2 || text[0] != '0' || (text[1] != 'x' && text[1] != 'X')
            ==> without_hex_mark(text) == text,
{
    assert((seq!['0', 'x'] + digits).skip(2) =~= digits);
    assert((seq!['0', 'X'] + digits).skip(2) =~= digits);
}

/// Bytes as text are the digits of the number that the bytes are, the highest first, two
/// for each byte.
pub proof fn law_bytes_are_written_as_their_number(bytes: Seq<u8>)
    ensures
        hex_text(bytes).len() == 2 * bytes.len(),
        numeral(hex_text(bytes), 16) == Some(be_value(bytes)),
    decreases bytes.len(),
{
    let digits = hex_text(bytes);
    if bytes.len() > 0 {
        let fewer = bytes.drop_last();
        let last = bytes.last();
        let end = digits.len() as int;
        law_bytes_are_written_as_their_number(fewer);
        lemma_hex_digit((last / 16) as nat);
        lemma_hex_digit((last % 16) as nat);
        let high = digits.drop_last();
        assert((end - 1) / 2 == bytes.len() - 1 && (end - 2) / 2 == bytes.len() - 1);
        assert(high.drop_last() =~= hex_text(fewer)) by {
            assert forall|i: int| 0 <= i < hex_text(fewer).len() implies high.drop_last()[i]
                == #[trigger] hex_text(fewer)[i] by {
                assert(fewer[i / 2] == bytes[i / 2]);
            }
        }
        assert(high.last() == hex_digit((last / 16) as nat));
        assert(digits.last() == hex_digit((last % 16) as nat));
        assert(numeral(high, 16) == Some((be_value(fewer) * 16 + last / 16) as nat));
        assert((be_value(fewer) * 16 + last / 16) * 16 + last % 16 == be_value(fewer) * 256
            + last);
    }
}

/// Code is read from the text that it is written as, with the mark or without it.
pub proof fn law_code_is_read_from_text(marked: String, bare: String, code: Seq<u8>)
    requires
        marked@ == hex_mark() + hex_text(code),
        bare@ == hex_text(code),
    ensures
        json_code(Json::Text(marked)) == Ok::<Seq<u8>, TraceFault>(code),
        json_code(Json::Text(bare)) == Ok::<Seq<u8>, TraceFault>(code),
{
    lemma_hex_comes_back(code);
    assert(hex_mark().is_prefix_of(marked@)) by {
        assert(hex_mark() =~= marked@.subrange(0, 2));
    }
    assert(marked@.skip(2) =~= hex_text(code));
    assert(!hex_mark().is_prefix_of(bare@)) by {
        if hex_mark().is_prefix_of(bare@) {
            assert(bare@.subrange(0, 2)[0] == '0' && bare@.subrange(0, 2)[1] == 'x');
            assert(without_hex_mark(bare@).len() == bare@.len() - 2);
        }
    }
}

} // verus!
