//! Reading the state changes of a block out of its trace.

use crate::block::{BlockId, BlockNumberOrTag};
use crate::bytes::Bytes;
use crate::cache::account::SlotMap;
use crate::collections::{in_order, SortedMap};
use crate::errors::TraceFault;
use crate::primitives::{be_bytes, be_value, pow_256, Address, U256};
use crate::text::{
    bounded_numeral, decode_hex, encode_hash, encode_quantity, hex_bytes, hex_digits, hex_mark,
    hex_text, parse_address, parse_u256, parse_u64, strip_prefix, unsigned, without_hex_mark,
    without_underscores,
};
use vstd::prelude::*;

verus! {

/// A JSON value.
#[derive(Debug, PartialEq, Eq)]
pub enum Json {
    /// Nothing.
    Null,
    /// A truth value.
    Bool(bool),
    /// A number.
    Number {
        /// How it is written.
        text: String,
        /// The number, where it is an unsigned integer that fits.
        unsigned: Option<u64>,
    },
    /// Text.
    Text(String),
    /// A list.
    Array(Vec<Json>),
    /// Named members.
    Object(Vec<(String, Json)>),
}

/// The first member of a name.
pub open spec fn find(members: Seq<(String, Json)>, name: Seq<char>) -> Option<Json>
    decreases members.len(),
{
    if members.len() == 0 {
        None
    } else if members[0].0@ == name {
        Some(members[0].1)
    } else {
        find(members.drop_first(), name)
    }
}

/// The members, where the value has any.
pub open spec fn members_of(value: Json) -> Option<Seq<(String, Json)>> {
    match value {
        Json::Object(members) => Some(members@),
        _ => None,
    }
}

/// The member of a name.
pub open spec fn member(value: Json, name: Seq<char>) -> Option<Json> {
    match value {
        Json::Object(members) => find(members@, name),
        _ => None,
    }
}

/// The members of the member of a name.
pub open spec fn submembers(value: Json, name: Seq<char>) -> Option<Seq<(String, Json)>> {
    match member(value, name) {
        Some(inner) => members_of(inner),
        None => None,
    }
}

/// The value behind a reference.
pub open spec fn plain(value: Option<&Json>) -> Option<Json> {
    match value {
        Some(value) => Some(*value),
        None => None,
    }
}

/// What a reference to a list holds.
pub open spec fn plain_members(value: Option<&Vec<(String, Json)>>) -> Option<
    Seq<(String, Json)>,
> {
    match value {
        Some(members) => Some(members@),
        None => None,
    }
}

/// The first member of a name.
fn find_member<'a>(members: &'a Vec<(String, Json)>, name: &String) -> (r: Option<&'a Json>)
    ensures
        plain(r) == find(members@, name@),
{
    let mut i: usize = 0;
    assert(members@.skip(0) =~= members@);
    while i < members.len()
        invariant
            i <= members.len(),
            find(members@.skip(i as int), name@) == find(members@, name@),
        decreases members.len() - i,
    {
        let ghost rest = members@.skip(i as int);
        assert(rest.drop_first() =~= members@.skip(i + 1));
        assert(rest[0] == members@[i as int]);
        if members[i].0 == *name {
            return Some(&members[i].1);
        }
        i = i + 1;
    }
    None
}

impl Json {
    /// The members, where the value has any.
    pub fn as_object(&self) -> (r: Option<&Vec<(String, Json)>>)
        ensures
            plain_members(r) == members_of(*self),
    {
        match self {
            Json::Object(members) => Some(members),
            _ => None,
        }
    }

    /// The member of a name.
    pub fn get(&self, name: &str) -> (r: Option<&Json>)
        ensures
            plain(r) == member(*self, name@),
    {
        let name: String = name.to_owned();
        match self {
            Json::Object(members) => find_member(members, &name),
            _ => None,
        }
    }
}

/// The members of the member of a name.
fn submembers_of<'a>(value: &'a Json, name: &str) -> (r: Option<&'a Vec<(String, Json)>>)
    ensures
        plain_members(r) == submembers(*value, name@),
{
    match value.get(name) {
        Some(inner) => inner.as_object(),
        None => None,
    }
}

/// The address that text stands for.
pub open spec fn address_of(text: String) -> Result<Address, TraceFault> {
    match hex_bytes(without_hex_mark(text@)) {
        Some(bytes) => if bytes.len() == 20 {
            Ok(Address::spec_from(be_value(bytes)))
        } else {
            Err(TraceFault::InvalidAddress { text })
        },
        None => Err(TraceFault::InvalidAddress { text }),
    }
}

/// The address that text stands for.
pub fn parse_trace_address(text: &String) -> (r: Result<Address, TraceFault>)
    ensures
        r == address_of(*text),
{
    match parse_address(text.as_str()) {
        Some(address) => {
            proof {
                Address::lemma_spec_from(address);
            }
            Ok(address)
        },
        None => Err(TraceFault::InvalidAddress { text: text.clone() }),
    }
}

/// The word that text stands for: hexadecimal digits after the mark, else decimal
/// digits; nothing stands for zero.
pub open spec fn word_of(text: String) -> Result<U256, TraceFault> {
    let value = if hex_mark().is_prefix_of(text@) {
        bounded_numeral(without_underscores(text@.skip(2)), 16, pow_256())
    } else {
        bounded_numeral(without_underscores(text@), 10, pow_256())
    };
    match value {
        Some(value) => Ok(U256::spec_from(value)),
        None => Err(TraceFault::InvalidU256 { text }),
    }
}

/// Text either starts with a mark and goes on with the rest, or does not.
proof fn lemma_rest(text: Seq<char>, rest: Seq<char>)
    requires
        text == hex_mark() + rest,
    ensures
        hex_mark().is_prefix_of(text),
        text.skip(2) == rest,
{
    assert(text.take(2) =~= hex_mark());
    assert(text.skip(2) =~= rest);
}

/// The mark, as it is written.
proof fn lemma_mark()
    ensures
        "0x"@ == hex_mark(),
{
    reveal_strlit("0x");
    assert("0x"@ =~= hex_mark());
}

/// No digits stand for zero.
proof fn lemma_nothing_is_zero(text: Seq<char>, radix: nat)
    requires
        text.len() == 0,
    ensures
        bounded_numeral(without_underscores(text), radix, pow_256()) == Some(0nat),
        U256::spec_from(0) == U256::spec_zero(),
{
    assert(text =~= Seq::empty());
    reveal(Seq::filter);
    assert(without_underscores(text) =~= Seq::empty());
    U256::lemma_spec_from(U256::spec_zero());
}

/// The word that text stands for.
pub fn parse_trace_u256_str(text: &String) -> (r: Result<U256, TraceFault>)
    ensures
        r == word_of(*text),
{
    proof {
        lemma_mark();
    }
    let parsed: Option<U256> = match strip_prefix(text.as_str(), "0x") {
        Some(rest) => {
            proof {
                lemma_rest(text@, rest@);
            }
            if rest.is_empty() {
                proof {
                    lemma_nothing_is_zero(rest@, 16);
                }
                return Ok(U256::zero());
            }
            parse_u256(rest, 16)
        },
        None => {
            if text.as_str().is_empty() {
                proof {
                    lemma_nothing_is_zero(text@, 10);
                }
                return Ok(U256::zero());
            }
            parse_u256(text.as_str(), 10)
        },
    };
    match parsed {
        Some(value) => {
            proof {
                U256::lemma_spec_from(value);
            }
            Ok(value)
        },
        None => Err(TraceFault::InvalidU256 { text: text.clone() }),
    }
}

/// The word that a value stands for.
pub open spec fn json_word(value: Json) -> Result<U256, TraceFault> {
    match value {
        Json::Text(text) => word_of(text),
        Json::Number { text, .. } => word_of(text),
        _ => Err(TraceFault::ExpectedU256),
    }
}

/// The word that a value stands for.
pub fn parse_trace_u256(value: &Json) -> (r: Result<U256, TraceFault>)
    ensures
        r == json_word(*value),
{
    match value {
        Json::Text(text) => parse_trace_u256_str(text),
        Json::Number { text, .. } => parse_trace_u256_str(text),
        _ => Err(TraceFault::ExpectedU256),
    }
}

/// The count that text stands for: hexadecimal digits after the mark, else
/// decimal digits; nothing stands for zero.
pub open spec fn count_of(text: String) -> Result<u64, TraceFault> {
    let (digits, radix) = if hex_mark().is_prefix_of(text@) {
        (text@.skip(2), 16nat)
    } else {
        (text@, 10nat)
    };
    if digits.len() == 0 {
        Ok(0)
    } else {
        match unsigned(digits) {
            Some(digits) => match bounded_numeral(digits, radix, u64::MAX as nat + 1) {
                Some(value) => Ok(value as u64),
                None => Err(TraceFault::InvalidU64 { text }),
            },
            None => Err(TraceFault::InvalidU64 { text }),
        }
    }
}

/// The count that a value stands for.
pub open spec fn json_count(value: Json) -> Result<u64, TraceFault> {
    match value {
        Json::Number { text, unsigned } => match unsigned {
            Some(value) => Ok(value),
            None => Err(TraceFault::InvalidU64 { text }),
        },
        Json::Text(text) => count_of(text),
        _ => Err(TraceFault::ExpectedU64),
    }
}

/// The count that text stands for.
fn parse_trace_u64_str(text: &String) -> (r: Result<u64, TraceFault>)
    ensures
        r == count_of(*text),
{
    proof {
        lemma_mark();
    }
    let parsed: Option<u64> = match strip_prefix(text.as_str(), "0x") {
        Some(rest) => {
            proof {
                lemma_rest(text@, rest@);
            }
            if rest.is_empty() {
                return Ok(0);
            }
            parse_u64(rest, 16)
        },
        None => {
            if text.as_str().is_empty() {
                return Ok(0);
            }
            parse_u64(text.as_str(), 10)
        },
    };
    match parsed {
        Some(value) => Ok(value),
        None => Err(TraceFault::InvalidU64 { text: text.clone() }),
    }
}

/// The count that a value stands for.
pub fn parse_trace_u64(value: &Json) -> (r: Result<u64, TraceFault>)
    ensures
        r == json_count(*value),
{
    match value {
        Json::Number { text, unsigned } => match unsigned {
            Some(value) => Ok(*value),
            None => Err(TraceFault::InvalidU64 { text: text.clone() }),
        },
        Json::Text(text) => parse_trace_u64_str(text),
        _ => Err(TraceFault::ExpectedU64),
    }
}

/// The code that a value stands for.
pub open spec fn json_code(value: Json) -> Result<Seq<u8>, TraceFault> {
    match value {
        Json::Text(text) => {
            let digits = if hex_mark().is_prefix_of(text@) {
                text@.skip(2)
            } else {
                text@
            };
            match hex_bytes(without_hex_mark(digits)) {
                Some(bytes) => Ok(bytes),
                None => Err(TraceFault::InvalidCode { text }),
            }
        },
        _ => Err(TraceFault::ExpectedCode),
    }
}

/// The code that a value stands for.
pub fn parse_trace_bytes(value: &Json) -> (r: Result<Bytes, TraceFault>)
    ensures
        (match r {
            Ok(bytes) => Ok(bytes@),
            Err(fault) => Err(fault),
        }) == json_code(*value),
{
    proof {
        lemma_mark();
    }
    match value {
        Json::Text(text) => {
            let decoded: Option<Vec<u8>> = match strip_prefix(text.as_str(), "0x") {
                Some(rest) => {
                    proof {
                        lemma_rest(text@, rest@);
                    }
                    decode_hex(rest)
                },
                None => decode_hex(text.as_str()),
            };
            match decoded {
                Some(bytes) => Ok(Bytes::from_vec(bytes)),
                None => Err(TraceFault::InvalidCode { text: text.clone() }),
            }
        },
        _ => Err(TraceFault::ExpectedCode),
    }
}

/// What a block left an account with, as far as its traces tell.
pub struct AccountDelta {
    /// The balance.
    pub balance: Option<U256>,
    /// The nonce.
    pub nonce: Option<u64>,
    /// The code.
    pub code: Option<Bytes>,
    /// Slots.
    pub storage: SlotMap,
}

/// What an [`AccountDelta`] holds.
#[verifier::ext_equal]
pub struct DeltaModel {
    /// The balance.
    pub balance: Option<U256>,
    /// The nonce.
    pub nonce: Option<u64>,
    /// The code.
    pub code: Option<Seq<u8>>,
    /// Slots.
    pub storage: Map<U256, U256>,
}

impl View for AccountDelta {
    type V = DeltaModel;

    open spec fn view(&self) -> DeltaModel {
        DeltaModel {
            balance: self.balance,
            nonce: self.nonce,
            code: match self.code {
                Some(code) => Some(code@),
                None => None,
            },
            storage: self.storage@,
        }
    }
}

impl DeltaModel {
    /// Nothing is known.
    pub open spec fn unknown() -> Self {
        DeltaModel { balance: None, nonce: None, code: None, storage: Map::empty() }
    }

    /// The account is gone.
    pub open spec fn deleted(self) -> Self {
        DeltaModel {
            balance: Some(U256::spec_zero()),
            nonce: Some(0),
            code: Some(Seq::empty()),
            ..self
        }
    }

    /// With the balance that an account ends a transaction with.
    pub open spec fn with_balance(self, account: Json) -> Result<Self, TraceFault> {
        match member(account, "balance"@) {
            Some(value) => match json_word(value) {
                Ok(balance) => Ok(DeltaModel { balance: Some(balance), ..self }),
                Err(fault) => Err(fault),
            },
            None => Ok(self),
        }
    }

    /// With the nonce that an account ends a transaction with.
    pub open spec fn with_nonce(self, account: Json) -> Result<Self, TraceFault> {
        match member(account, "nonce"@) {
            Some(value) => match json_count(value) {
                Ok(nonce) => Ok(DeltaModel { nonce: Some(nonce), ..self }),
                Err(fault) => Err(fault),
            },
            None => Ok(self),
        }
    }

    /// With the code that an account ends a transaction with.
    pub open spec fn with_code(self, account: Json) -> Result<Self, TraceFault> {
        match member(account, "code"@) {
            Some(value) => match json_code(value) {
                Ok(code) => Ok(DeltaModel { code: Some(code), ..self }),
                Err(fault) => Err(fault),
            },
            None => Ok(self),
        }
    }

    /// With the slots that an account ends a transaction with, one after the
    /// other.
    pub open spec fn with_slots(self, slots: Seq<(String, Json)>) -> Result<Self, TraceFault>
        decreases slots.len(),
    {
        if slots.len() == 0 {
            Ok(self)
        } else {
            match (word_of(slots[0].0), json_word(slots[0].1)) {
                (Ok(slot), Ok(value)) => (DeltaModel {
                    storage: self.storage.insert(slot, value),
                    ..self
                }).with_slots(slots.drop_first()),
                (Err(fault), _) => Err(fault),
                (_, Err(fault)) => Err(fault),
            }
        }
    }

    /// With all that an account ends a transaction with: balance, nonce, code,
    /// slots; the first that is malformed is reported.
    pub open spec fn with_post(self, account: Json) -> Result<Self, TraceFault> {
        match self.with_balance(account) {
            Ok(delta) => match delta.with_nonce(account) {
                Ok(delta) => match delta.with_code(account) {
                    Ok(delta) => match submembers(account, "storage"@) {
                        Some(slots) => delta.with_slots(slots),
                        None => Ok(delta),
                    },
                    Err(fault) => Err(fault),
                },
                Err(fault) => Err(fault),
            },
            Err(fault) => Err(fault),
        }
    }
}

/// What is known of an account.
pub open spec fn known(deltas: Map<Address, DeltaModel>, address: Address) -> DeltaModel {
    if deltas.contains_key(address) {
        deltas[address]
    } else {
        DeltaModel::unknown()
    }
}

/// The result of changing a delta, as plain values.
pub open spec fn settled(r: Result<(), TraceFault>, delta: DeltaModel) -> Result<
    DeltaModel,
    TraceFault,
> {
    match r {
        Ok(_) => Ok(delta),
        Err(fault) => Err(fault),
    }
}

impl AccountDelta {
    /// Nothing is known.
    pub fn unknown() -> (r: Self)
        ensures
            r@ == DeltaModel::unknown(),
    {
        let r = AccountDelta { balance: None, nonce: None, code: None, storage: SortedMap::new() };
        assert(r@ =~= DeltaModel::unknown());
        r
    }

    /// Records the slots that an account ends a transaction with.
    fn record_slots(&mut self, slots: &Vec<(String, Json)>) -> (r: Result<(), TraceFault>)
        ensures
            r is Ok ==> settled(r, final(self)@) == old(self)@.with_slots(slots@),
            r is Err ==> settled(r, old(self)@) == old(self)@.with_slots(slots@),
    {
        let mut i: usize = 0;
        assert(slots@.skip(0) =~= slots@);
        while i < slots.len()
            invariant
                i <= slots.len(),
                self@.with_slots(slots@.skip(i as int)) == old(self)@.with_slots(slots@),
            decreases slots.len() - i,
        {
            let ghost rest = slots@.skip(i as int);
            assert(rest.drop_first() =~= slots@.skip(i + 1));
            assert(rest[0] == slots@[i as int]);
            let ghost before = self@;
            let slot: U256 = match parse_trace_u256_str(&slots[i].0) {
                Ok(slot) => slot,
                Err(fault) => return Err(fault),
            };
            let value: U256 = match parse_trace_u256(&slots[i].1) {
                Ok(value) => value,
                Err(fault) => return Err(fault),
            };
            self.storage.insert(slot, value);
            assert(self@ =~= (DeltaModel { storage: before.storage.insert(slot, value), ..before }));
            i = i + 1;
        }
        assert(slots@.skip(i as int).len() == 0);
        Ok(())
    }

    /// Records all that an account ends a transaction with.
    fn record_post(&mut self, account: &Json) -> (r: Result<(), TraceFault>)
        ensures
            r is Ok ==> settled(r, final(self)@) == old(self)@.with_post(*account),
            r is Err ==> settled(r, old(self)@) == old(self)@.with_post(*account),
    {
        let ghost before = self@;
        match account.get("balance") {
            Some(value) => match parse_trace_u256(value) {
                Ok(balance) => {
                    self.balance = Some(balance);
                },
                Err(fault) => return Err(fault),
            },
            None => {},
        }
        assert(before.with_balance(*account) == Ok::<DeltaModel, TraceFault>(self@));
        let ghost balanced = self@;
        match account.get("nonce") {
            Some(value) => match parse_trace_u64(value) {
                Ok(nonce) => {
                    self.nonce = Some(nonce);
                },
                Err(fault) => return Err(fault),
            },
            None => {},
        }
        assert(balanced.with_nonce(*account) == Ok::<DeltaModel, TraceFault>(self@));
        let ghost counted = self@;
        match account.get("code") {
            Some(value) => match parse_trace_bytes(value) {
                Ok(code) => {
                    self.code = Some(code);
                },
                Err(fault) => return Err(fault),
            },
            None => {},
        }
        assert(counted.with_code(*account) == Ok::<DeltaModel, TraceFault>(self@));
        match submembers_of(account, "storage") {
            Some(slots) => self.record_slots(slots),
            None => Ok(()),
        }
    }
}

/// What deltas hold.
pub open spec fn deltas_model(deltas: Map<Address, AccountDelta>) -> Map<Address, DeltaModel> {
    deltas.map_values(|delta: AccountDelta| delta@)
}

/// Accounts with the values that they end a transaction with.
pub open spec fn with_posts(
    deltas: Map<Address, DeltaModel>,
    post: Seq<(String, Json)>,
) -> Result<Map<Address, DeltaModel>, TraceFault>
    decreases post.len(),
{
    if post.len() == 0 {
        Ok(deltas)
    } else {
        match address_of(post[0].0) {
            Ok(address) => match known(deltas, address).with_post(post[0].1) {
                Ok(delta) => with_posts(deltas.insert(address, delta), post.drop_first()),
                Err(fault) => Err(fault),
            },
            Err(fault) => Err(fault),
        }
    }
}

/// An account with the slots at zero that it started a transaction with and did
/// not end with.
pub open spec fn with_cleared(
    deltas: Map<Address, DeltaModel>,
    address: Address,
    pre_slots: Seq<(String, Json)>,
    post_slots: Option<Seq<(String, Json)>>,
) -> Result<Map<Address, DeltaModel>, TraceFault>
    decreases pre_slots.len(),
{
    if pre_slots.len() == 0 {
        Ok(deltas)
    } else {
        let kept = post_slots matches Some(slots) && find(slots, pre_slots[0].0@) is Some;
        if kept {
            with_cleared(deltas, address, pre_slots.drop_first(), post_slots)
        } else {
            match word_of(pre_slots[0].0) {
                Ok(slot) => {
                    let delta = known(deltas, address);
                    with_cleared(
                        deltas.insert(
                            address,
                            DeltaModel {
                                storage: delta.storage.insert(slot, U256::spec_zero()),
                                ..delta
                            },
                        ),
                        address,
                        pre_slots.drop_first(),
                        post_slots,
                    )
                },
                Err(fault) => Err(fault),
            }
        }
    }
}

/// The slots that an account ends a transaction with.
pub open spec fn post_slots(post_account: Option<Json>) -> Option<Seq<(String, Json)>> {
    match post_account {
        Some(account) => submembers(account, "storage"@),
        None => None,
    }
}

/// Deltas with an account gone, where it did not end the transaction.
pub open spec fn with_deletion(
    deltas: Map<Address, DeltaModel>,
    address: Address,
    post_account: Option<Json>,
) -> Map<Address, DeltaModel> {
    match post_account {
        Some(_) => deltas,
        None => deltas.insert(address, known(deltas, address).deleted()),
    }
}

/// Accounts with what they lost in a transaction: an account that it did not end
/// with is gone, and a slot that an account did not end with is zero.
pub open spec fn with_losses(
    deltas: Map<Address, DeltaModel>,
    pre: Seq<(String, Json)>,
    post: Seq<(String, Json)>,
) -> Result<Map<Address, DeltaModel>, TraceFault>
    decreases pre.len(),
{
    if pre.len() == 0 {
        Ok(deltas)
    } else {
        match address_of(pre[0].0) {
            Ok(address) => {
                let post_account = find(post, pre[0].0@);
                let deleted = with_deletion(deltas, address, post_account);
                match submembers(pre[0].1, "storage"@) {
                    Some(pre_slots) => match with_cleared(
                        deleted,
                        address,
                        pre_slots,
                        post_slots(post_account),
                    ) {
                        Ok(cleared) => with_losses(cleared, pre.drop_first(), post),
                        Err(fault) => Err(fault),
                    },
                    None => with_losses(deleted, pre.drop_first(), post),
                }
            },
            Err(fault) => Err(fault),
        }
    }
}

/// The difference that a trace reports.
pub open spec fn reported(trace: Json) -> Json {
    match member(trace, "result"@) {
        Some(result) => result,
        None => trace,
    }
}

/// Accounts with the changes of one trace. A trace without both states changes
/// nothing.
pub open spec fn with_trace(deltas: Map<Address, DeltaModel>, trace: Json) -> Result<
    Map<Address, DeltaModel>,
    TraceFault,
> {
    match (submembers(reported(trace), "pre"@), submembers(reported(trace), "post"@)) {
        (Some(pre), Some(post)) => match with_posts(deltas, post) {
            Ok(posted) => with_losses(posted, pre, post),
            Err(fault) => Err(fault),
        },
        _ => Ok(deltas),
    }
}

/// Accounts with the changes of traces, in their order.
pub open spec fn with_traces(deltas: Map<Address, DeltaModel>, traces: Seq<Json>) -> Result<
    Map<Address, DeltaModel>,
    TraceFault,
>
    decreases traces.len(),
{
    if traces.len() == 0 {
        Ok(deltas)
    } else {
        match with_trace(deltas, traces[0]) {
            Ok(next) => with_traces(next, traces.drop_first()),
            Err(fault) => Err(fault),
        }
    }
}

/// The changes of a block, from its trace: a list of traces, or one.
pub open spec fn block_changes(value: Json) -> Result<Map<Address, DeltaModel>, TraceFault> {
    match value {
        Json::Array(traces) => with_traces(Map::empty(), traces@),
        _ => with_trace(Map::empty(), value),
    }
}

/// The result of changing deltas, as plain values.
pub open spec fn settled_all(
    r: Result<(), TraceFault>,
    deltas: Map<Address, AccountDelta>,
) -> Result<Map<Address, DeltaModel>, TraceFault> {
    match r {
        Ok(_) => Ok(deltas_model(deltas)),
        Err(fault) => Err(fault),
    }
}

/// Takes the entry of an account out, or starts one.
fn take_delta(deltas: &mut SortedMap<Address, AccountDelta>, address: Address) -> (r: AccountDelta)
    ensures
        r@ == known(deltas_model(old(deltas)@), address),
        forall|delta: AccountDelta|
            deltas_model(#[trigger] final(deltas)@.insert(address, delta)) == deltas_model(
                old(deltas)@,
            ).insert(address, delta@),
{
    let taken: Option<AccountDelta> = deltas.remove(&address);
    proof {
        assert forall|delta: AccountDelta|
            deltas_model(#[trigger] deltas@.insert(address, delta)) == deltas_model(
                old(deltas)@,
            ).insert(address, delta@) by {
            assert(deltas_model(deltas@.insert(address, delta)) =~= deltas_model(
                old(deltas)@,
            ).insert(address, delta@));
        }
    }
    match taken {
        Some(delta) => delta,
        None => AccountDelta::unknown(),
    }
}

/// Records the values that accounts end a transaction with.
fn record_posts(
    deltas: &mut SortedMap<Address, AccountDelta>,
    post: &Vec<(String, Json)>,
) -> (r: Result<(), TraceFault>)
    ensures
        settled_all(r, final(deltas)@) == with_posts(deltas_model(old(deltas)@), post@),
{
    let mut i: usize = 0;
    assert(post@.skip(0) =~= post@);
    while i < post.len()
        invariant
            i <= post.len(),
            with_posts(deltas_model(deltas@), post@.skip(i as int)) == with_posts(
                deltas_model(old(deltas)@),
                post@,
            ),
        decreases post.len() - i,
    {
        let ghost rest = post@.skip(i as int);
        assert(rest.drop_first() =~= post@.skip(i + 1));
        assert(rest[0] == post@[i as int]);
        let address: Address = match parse_trace_address(&post[i].0) {
            Ok(address) => address,
            Err(fault) => return Err(fault),
        };
        let mut delta: AccountDelta = take_delta(deltas, address);
        match delta.record_post(&post[i].1) {
            Ok(()) => {},
            Err(fault) => return Err(fault),
        }
        deltas.insert(address, delta);
        i = i + 1;
    }
    assert(post@.skip(i as int).len() == 0);
    Ok(())
}

/// Records the slots that an account did not end a transaction with.
fn record_cleared(
    deltas: &mut SortedMap<Address, AccountDelta>,
    address: Address,
    pre_slots: &Vec<(String, Json)>,
    post_slots: Option<&Vec<(String, Json)>>,
) -> (r: Result<(), TraceFault>)
    ensures
        settled_all(r, final(deltas)@) == with_cleared(
            deltas_model(old(deltas)@),
            address,
            pre_slots@,
            plain_members(post_slots),
        ),
{
    let mut i: usize = 0;
    assert(pre_slots@.skip(0) =~= pre_slots@);
    while i < pre_slots.len()
        invariant
            i <= pre_slots.len(),
            with_cleared(
                deltas_model(deltas@),
                address,
                pre_slots@.skip(i as int),
                plain_members(post_slots),
            ) == with_cleared(
                deltas_model(old(deltas)@),
                address,
                pre_slots@,
                plain_members(post_slots),
            ),
        decreases pre_slots.len() - i,
    {
        let ghost rest = pre_slots@.skip(i as int);
        assert(rest.drop_first() =~= pre_slots@.skip(i + 1));
        assert(rest[0] == pre_slots@[i as int]);
        let kept: bool = match post_slots {
            Some(slots) => find_member(slots, &pre_slots[i].0).is_some(),
            None => false,
        };
        if !kept {
            let slot: U256 = match parse_trace_u256_str(&pre_slots[i].0) {
                Ok(slot) => slot,
                Err(fault) => return Err(fault),
            };
            let mut delta: AccountDelta = take_delta(deltas, address);
            let ghost before = delta@;
            delta.storage.insert(slot, U256::zero());
            assert(delta@ =~= (DeltaModel {
                storage: before.storage.insert(slot, U256::spec_zero()),
                ..before
            }));
            deltas.insert(address, delta);
        }
        i = i + 1;
    }
    assert(pre_slots@.skip(i as int).len() == 0);
    Ok(())
}

/// Records what accounts lost in a transaction.
fn record_losses(
    deltas: &mut SortedMap<Address, AccountDelta>,
    pre: &Vec<(String, Json)>,
    post: &Vec<(String, Json)>,
) -> (r: Result<(), TraceFault>)
    ensures
        settled_all(r, final(deltas)@) == with_losses(deltas_model(old(deltas)@), pre@, post@),
{
    let mut i: usize = 0;
    assert(pre@.skip(0) =~= pre@);
    while i < pre.len()
        invariant
            i <= pre.len(),
            with_losses(deltas_model(deltas@), pre@.skip(i as int), post@) == with_losses(
                deltas_model(old(deltas)@),
                pre@,
                post@,
            ),
        decreases pre.len() - i,
    {
        let ghost rest = pre@.skip(i as int);
        assert(rest.drop_first() =~= pre@.skip(i + 1));
        assert(rest[0] == pre@[i as int]);
        let ghost before = deltas_model(deltas@);
        let address: Address = match parse_trace_address(&pre[i].0) {
            Ok(address) => address,
            Err(fault) => return Err(fault),
        };
        let post_account: Option<&Json> = find_member(post, &pre[i].0);
        if post_account.is_none() {
            let mut delta: AccountDelta = take_delta(deltas, address);
            let ghost held = delta@;
            delta.balance = Some(U256::zero());
            delta.nonce = Some(0);
            delta.code = Some(Bytes::new());
            assert(delta@ =~= held.deleted());
            deltas.insert(address, delta);
        }
        assert(deltas_model(deltas@) == with_deletion(before, address, plain(post_account)));
        match submembers_of(&pre[i].1, "storage") {
            Some(pre_slots) => {
                let kept: Option<&Vec<(String, Json)>> = match post_account {
                    Some(account) => submembers_of(account, "storage"),
                    None => None,
                };
                match record_cleared(deltas, address, pre_slots, kept) {
                    Ok(()) => {},
                    Err(fault) => return Err(fault),
                }
            },
            None => {},
        }
        i = i + 1;
    }
    assert(pre@.skip(i as int).len() == 0);
    Ok(())
}

/// Records the changes of one trace.
pub fn merge_trace_diff(
    trace: &Json,
    deltas: &mut SortedMap<Address, AccountDelta>,
) -> (r: Result<(), TraceFault>)
    ensures
        settled_all(r, final(deltas)@) == with_trace(deltas_model(old(deltas)@), *trace),
{
    let diff: &Json = match trace.get("result") {
        Some(result) => result,
        None => trace,
    };
    let pre: &Vec<(String, Json)> = match submembers_of(diff, "pre") {
        Some(pre) => pre,
        None => return Ok(()),
    };
    let post: &Vec<(String, Json)> = match submembers_of(diff, "post") {
        Some(post) => post,
        None => return Ok(()),
    };
    match record_posts(deltas, post) {
        Ok(()) => {},
        Err(fault) => return Err(fault),
    }
    record_losses(deltas, pre, post)
}

/// The final value of one slot.
#[derive(Clone, Copy, Debug, PartialEq, Eq, Structural)]
pub struct BlockStateStorageDiff {
    /// The slot.
    pub slot: U256,
    /// The value after the block; zero for a slot that was cleared.
    pub value: U256,
}

/// The final values of one account.
#[derive(Debug, PartialEq, Eq)]
pub struct BlockStateAccountDiff {
    /// The account.
    pub address: Address,
    /// The balance after the block, where it changed.
    pub balance: Option<U256>,
    /// The nonce after the block, where it changed.
    pub nonce: Option<u64>,
    /// The code after the block, where it changed.
    pub code: Option<Bytes>,
    /// The slots that changed, in their order.
    pub storage: Vec<BlockStateStorageDiff>,
}

/// The final values of the accounts that a block changed.
#[derive(Debug, PartialEq, Eq)]
pub struct BlockStateDiff {
    /// The accounts, in the order of their addresses.
    pub accounts: Vec<BlockStateAccountDiff>,
}

/// What a [`BlockStateAccountDiff`] holds.
pub struct AccountDiffModel {
    /// The account.
    pub address: Address,
    /// The balance after the block, where it changed.
    pub balance: Option<U256>,
    /// The nonce after the block, where it changed.
    pub nonce: Option<u64>,
    /// The code after the block, where it changed.
    pub code: Option<Seq<u8>>,
    /// The slots that changed.
    pub storage: Seq<BlockStateStorageDiff>,
}

impl View for BlockStateAccountDiff {
    type V = AccountDiffModel;

    open spec fn view(&self) -> AccountDiffModel {
        AccountDiffModel {
            address: self.address,
            balance: self.balance,
            nonce: self.nonce,
            code: match self.code {
                Some(code) => Some(code@),
                None => None,
            },
            storage: self.storage@,
        }
    }
}

impl View for BlockStateDiff {
    type V = Seq<AccountDiffModel>;

    open spec fn view(&self) -> Seq<AccountDiffModel> {
        self.accounts@.map_values(|account: BlockStateAccountDiff| account@)
    }
}

/// Slots with their values, in their order.
pub open spec fn listed_slots(slots: Map<U256, U256>) -> Seq<BlockStateStorageDiff> {
    in_order(slots.dom()).map_values(
        |slot: U256| BlockStateStorageDiff { slot, value: slots[slot] },
    )
}

/// An account with its final values.
pub open spec fn listed_account(address: Address, delta: DeltaModel) -> AccountDiffModel {
    AccountDiffModel {
        address,
        balance: delta.balance,
        nonce: delta.nonce,
        code: delta.code,
        storage: listed_slots(delta.storage),
    }
}

/// Accounts with their final values, in the order of their addresses.
pub open spec fn listed(changes: Map<Address, DeltaModel>) -> Seq<AccountDiffModel> {
    in_order(changes.dom()).map_values(|address: Address| listed_account(address, changes[address]))
}

/// Slots with their values, in their order.
fn list_slots(slots: &SlotMap) -> (r: Vec<BlockStateStorageDiff>)
    ensures
        r@ == listed_slots(slots@),
{
    let n: usize = slots.len();
    let mut list: Vec<BlockStateStorageDiff> = Vec::new();
    let mut i: usize = 0;
    while i < n
        invariant
            i <= n == slots.order().len(),
            slots.order() == in_order(slots@.dom()),
            list@ =~= listed_slots(slots@).take(i as int),
        decreases n - i,
    {
        list.push(BlockStateStorageDiff { slot: slots.key_at(i), value: *slots.value_at(i) });
        i = i + 1;
    }
    assert(list@ =~= listed_slots(slots@));
    list
}

/// Accounts with their final values, in the order of their addresses.
fn list_accounts(deltas: &SortedMap<Address, AccountDelta>) -> (r: Vec<BlockStateAccountDiff>)
    ensures
        r@.map_values(|account: BlockStateAccountDiff| account@) == listed(deltas_model(deltas@)),
{
    let n: usize = deltas.len();
    let mut list: Vec<BlockStateAccountDiff> = Vec::new();
    let mut i: usize = 0;
    assert(deltas_model(deltas@).dom() =~= deltas@.dom());
    while i < n
        invariant
            i <= n == deltas.order().len(),
            deltas.order() == in_order(deltas@.dom()),
            deltas_model(deltas@).dom() == deltas@.dom(),
            list@.map_values(|account: BlockStateAccountDiff| account@) =~= listed(
                deltas_model(deltas@),
            ).take(i as int),
        decreases n - i,
    {
        let address: Address = deltas.key_at(i);
        let delta: &AccountDelta = deltas.value_at(i);
        let code: Option<Bytes> = match &delta.code {
            Some(code) => Some(code.clone()),
            None => None,
        };
        let account = BlockStateAccountDiff {
            address,
            balance: delta.balance,
            nonce: delta.nonce,
            code,
            storage: list_slots(&delta.storage),
        };
        let ghost made = account@;
        let ghost before = list@.map_values(|account: BlockStateAccountDiff| account@);
        proof {
            assert(deltas_model(deltas@)[address] == delta@);
            assert(made == listed_account(address, delta@));
            assert(listed(deltas_model(deltas@))[i as int] == made);
        }
        list.push(account);
        proof {
            assert(list@.map_values(|account: BlockStateAccountDiff| account@) =~= before.push(
                made,
            ));
        }
        i = i + 1;
    }
    assert(list@.map_values(|account: BlockStateAccountDiff| account@) =~= listed(
        deltas_model(deltas@),
    ));
    list
}

/// The final values of the accounts that a block changed, from its trace: a list
/// of traces, or one. The first part that is malformed is reported.
pub fn parse_block_state_diff_trace(value: &Json) -> (r: Result<BlockStateDiff, TraceFault>)
    ensures
        (match r {
            Ok(diff) => Ok(diff@),
            Err(fault) => Err(fault),
        }) == (match block_changes(*value) {
            Ok(changes) => Ok(listed(changes)),
            Err(fault) => Err(fault),
        }),
{
    let mut deltas: SortedMap<Address, AccountDelta> = SortedMap::new();
    assert(deltas_model(deltas@) =~= Map::empty());
    match value {
        Json::Array(traces) => {
            let mut i: usize = 0;
            assert(traces@.skip(0) =~= traces@);
            while i < traces.len()
                invariant
                    i <= traces.len(),
                    with_traces(deltas_model(deltas@), traces@.skip(i as int)) == with_traces(
                        Map::empty(),
                        traces@,
                    ),
                    *value == Json::Array(*traces),
                decreases traces.len() - i,
            {
                let ghost rest = traces@.skip(i as int);
                assert(rest.drop_first() =~= traces@.skip(i + 1));
                assert(rest[0] == traces@[i as int]);
                match merge_trace_diff(&traces[i], &mut deltas) {
                    Ok(()) => {},
                    Err(fault) => return Err(fault),
                }
                i = i + 1;
            }
            assert(traces@.skip(i as int).len() == 0);
        },
        _ => match merge_trace_diff(value, &mut deltas) {
            Ok(()) => {},
            Err(fault) => return Err(fault),
        },
    }
    let accounts: Vec<BlockStateAccountDiff> = list_accounts(&deltas);
    Ok(BlockStateDiff { accounts })
}

/// Traces are merged in their order: the traces of two lists give what the second
/// list gives on top of the first.
pub proof fn law_traces_merge_in_order(
    deltas: Map<Address, DeltaModel>,
    first: Seq<Json>,
    second: Seq<Json>,
)
    ensures
        with_traces(deltas, first + second) == (match with_traces(deltas, first) {
            Ok(next) => with_traces(next, second),
            Err(fault) => Err(fault),
        }),
    decreases first.len(),
{
    if first.len() == 0 {
        assert(first + second =~= second);
    } else {
        assert((first + second).drop_first() =~= first.drop_first() + second);
        match with_trace(deltas, first[0]) {
            Ok(next) => law_traces_merge_in_order(next, first.drop_first(), second),
            Err(_) => {},
        }
    }
}

/// Whether an account is known to be gone.
pub open spec fn is_gone(deltas: Map<Address, DeltaModel>, address: Address) -> bool {
    &&& deltas.contains_key(address)
    &&& deltas[address].balance == Some(U256::spec_zero())
    &&& deltas[address].nonce == Some(0u64)
    &&& deltas[address].code == Some(Seq::<u8>::empty())
}

/// Whether a slot is known to be zero.
pub open spec fn is_cleared(
    deltas: Map<Address, DeltaModel>,
    address: Address,
    slot: U256,
) -> bool {
    &&& deltas.contains_key(address)
    &&& deltas[address].storage.contains_key(slot)
    &&& deltas[address].storage[slot] == U256::spec_zero()
}

/// Clearing slots brings no account back and fills no slot, and leaves the slots
/// named zero.
proof fn lemma_clearing(
    deltas: Map<Address, DeltaModel>,
    cleared: Address,
    pre_slots: Seq<(String, Json)>,
    post_slots: Option<Seq<(String, Json)>>,
    next: Map<Address, DeltaModel>,
)
    requires
        with_cleared(deltas, cleared, pre_slots, post_slots) == Ok::<
            Map<Address, DeltaModel>,
            TraceFault,
        >(next),
    ensures
        forall|address: Address| #[trigger] is_gone(deltas, address) ==> is_gone(next, address),
        forall|address: Address, slot: U256| #[trigger]
            is_cleared(deltas, address, slot) ==> is_cleared(next, address, slot),
        forall|i: int|
            #![trigger pre_slots[i]]
            0 <= i < pre_slots.len() && !(post_slots is Some && find(
                post_slots->0,
                pre_slots[i].0@,
            ) is Some) ==> word_of(pre_slots[i].0) is Ok && is_cleared(
                next,
                cleared,
                word_of(pre_slots[i].0)->Ok_0,
            ),
    decreases pre_slots.len(),
{
    if pre_slots.len() > 0 {
        let rest = pre_slots.drop_first();
        let kept = post_slots is Some && find(post_slots->0, pre_slots[0].0@) is Some;
        let step = if kept {
            deltas
        } else {
            let delta = known(deltas, cleared);
            deltas.insert(
                cleared,
                DeltaModel {
                    storage: delta.storage.insert(
                        word_of(pre_slots[0].0)->Ok_0,
                        U256::spec_zero(),
                    ),
                    ..delta
                },
            )
        };
        lemma_clearing(step, cleared, rest, post_slots, next);
        assert forall|address: Address| #[trigger] is_gone(deltas, address) implies is_gone(
            next,
            address,
        ) by {
            assert(is_gone(step, address));
        }
        assert forall|address: Address, slot: U256| #[trigger]
            is_cleared(deltas, address, slot) implies is_cleared(next, address, slot) by {
            assert(is_cleared(step, address, slot));
        }
        assert forall|i: int|
            #![trigger pre_slots[i]]
            0 <= i < pre_slots.len() && !(post_slots is Some && find(
                post_slots->0,
                pre_slots[i].0@,
            ) is Some) implies word_of(pre_slots[i].0) is Ok && is_cleared(
            next,
            cleared,
            word_of(pre_slots[i].0)->Ok_0,
        ) by {
            if i == 0 {
                assert(is_cleared(step, cleared, word_of(pre_slots[0].0)->Ok_0));
            } else {
                assert(pre_slots[i] == rest[i - 1]);
            }
        }
    }
}

/// Losses bring no account back and fill no slot; an account that a transaction
/// did not end with is gone, and a slot that it did not end with is zero.
proof fn lemma_losses(
    deltas: Map<Address, DeltaModel>,
    pre: Seq<(String, Json)>,
    post: Seq<(String, Json)>,
    next: Map<Address, DeltaModel>,
)
    requires
        with_losses(deltas, pre, post) == Ok::<Map<Address, DeltaModel>, TraceFault>(next),
    ensures
        forall|address: Address| #[trigger] is_gone(deltas, address) ==> is_gone(next, address),
        forall|address: Address, slot: U256| #[trigger]
            is_cleared(deltas, address, slot) ==> is_cleared(next, address, slot),
        forall|i: int| 0 <= i < pre.len() ==> is_lost(#[trigger] pre[i], post, next),
    decreases pre.len(),
{
    if pre.len() > 0 {
        let rest = pre.drop_first();
        let address = address_of(pre[0].0)->Ok_0;
        let post_account = find(post, pre[0].0@);
        let deleted = with_deletion(deltas, address, post_account);
        let step = match submembers(pre[0].1, "storage"@) {
            Some(pre_slots) => with_cleared(
                deleted,
                address,
                pre_slots,
                post_slots(post_account),
            )->Ok_0,
            None => deleted,
        };
        if let Some(pre_slots) = submembers(pre[0].1, "storage"@) {
            lemma_clearing(deleted, address, pre_slots, post_slots(post_account), step);
        }
        lemma_losses(step, rest, post, next);
        assert forall|other: Address| #[trigger] is_gone(deltas, other) implies is_gone(
            next,
            other,
        ) by {
            assert(is_gone(deleted, other));
            assert(is_gone(step, other));
        }
        assert forall|other: Address, slot: U256| #[trigger]
            is_cleared(deltas, other, slot) implies is_cleared(next, other, slot) by {
            assert(is_cleared(deleted, other, slot));
            assert(is_cleared(step, other, slot));
        }
        assert forall|i: int| 0 <= i < pre.len() implies is_lost(#[trigger] pre[i], post, next) by {
            if i == 0 {
                if post_account is None {
                    assert(is_gone(deleted, address));
                    assert(is_gone(step, address));
                }
                if let Some(pre_slots) = submembers(pre[0].1, "storage"@) {
                    assert forall|j: int|
                        0 <= j < pre_slots.len() && !ends_with_slot(
                            post_account,
                            (#[trigger] pre_slots[j]).0@,
                        ) implies word_of(pre_slots[j].0) is Ok && is_cleared(
                        next,
                        address,
                        word_of(pre_slots[j].0)->Ok_0,
                    ) by {
                        assert(is_cleared(step, address, word_of(pre_slots[j].0)->Ok_0));
                    }
                }
            } else {
                assert(pre[i] == rest[i - 1]);
            }
        }
    }
}

/// Whether an account ends a transaction with a slot.
pub open spec fn ends_with_slot(post_account: Option<Json>, slot: Seq<char>) -> bool {
    post_slots(post_account) is Some && find(post_slots(post_account)->0, slot) is Some
}

/// Whether what an account started a transaction with and did not end it with is
/// recorded as lost.
pub open spec fn is_lost(
    pre: (String, Json),
    post: Seq<(String, Json)>,
    deltas: Map<Address, DeltaModel>,
) -> bool {
    &&& address_of(pre.0) is Ok
    &&& find(post, pre.0@) is None ==> is_gone(deltas, address_of(pre.0)->Ok_0)
    &&& submembers(pre.1, "storage"@) is Some ==> {
        let slots = submembers(pre.1, "storage"@)->0;
        forall|j: int|
            0 <= j < slots.len() && !ends_with_slot(
                find(post, pre.0@),
                (#[trigger] slots[j]).0@,
            ) ==> word_of(slots[j].0) is Ok && is_cleared(
                deltas,
                address_of(pre.0)->Ok_0,
                word_of(slots[j].0)->Ok_0,
            )
    }
}

/// What a transaction takes away is told: after a trace, an account that it
/// started with and did not end with is gone (no balance, no nonce, no code), and a
/// slot that an account started with and did not end with is zero.
pub proof fn law_losses_are_explicit(
    deltas: Map<Address, DeltaModel>,
    trace: Json,
    pre: Seq<(String, Json)>,
    post: Seq<(String, Json)>,
    next: Map<Address, DeltaModel>,
)
    requires
        submembers(reported(trace), "pre"@) == Some(pre),
        submembers(reported(trace), "post"@) == Some(post),
        with_trace(deltas, trace) == Ok::<Map<Address, DeltaModel>, TraceFault>(next),
    ensures
        forall|i: int| 0 <= i < pre.len() ==> is_lost(#[trigger] pre[i], post, next),
{
    lemma_losses(with_posts(deltas, post)->Ok_0, pre, post, next);
}

/// How a block is named in a request.
pub open spec fn block_param(number: BlockNumberOrTag) -> Seq<char> {
    match number {
        BlockNumberOrTag::Number(number) => hex_mark() + hex_digits(number as nat),
        BlockNumberOrTag::Latest => "latest"@,
        BlockNumberOrTag::Finalized => "finalized"@,
        BlockNumberOrTag::Safe => "safe"@,
        BlockNumberOrTag::Earliest => "earliest"@,
        BlockNumberOrTag::Pending => "pending"@,
    }
}

/// How a block is named in a request.
pub fn block_number_or_tag_param(number: BlockNumberOrTag) -> (r: String)
    ensures
        r@ == block_param(number),
{
    match number {
        BlockNumberOrTag::Number(number) => encode_quantity(number),
        BlockNumberOrTag::Latest => "latest".to_owned(),
        BlockNumberOrTag::Finalized => "finalized".to_owned(),
        BlockNumberOrTag::Safe => "safe".to_owned(),
        BlockNumberOrTag::Earliest => "earliest".to_owned(),
        BlockNumberOrTag::Pending => "pending".to_owned(),
    }
}

/// Whether a value is text.
pub open spec fn is_text(value: Json, text: Seq<char>) -> bool {
    value matches Json::Text(held) && held@ == text
}

/// Whether a value asks for the state before and after each transaction, as far
/// as they differ.
pub open spec fn is_diff_tracer(value: Json) -> bool {
    &&& value matches Json::Object(members)
    &&& members@.len() == 2
    &&& members@[0].0@ == "tracer"@
    &&& is_text(members@[0].1, "prestateTracer"@)
    &&& members@[1].0@ == "tracerConfig"@
    &&& members@[1].1 matches Json::Object(config)
    &&& config@.len() == 1
    &&& config@[0].0@ == "diffMode"@
    &&& config@[0].1 == Json::Bool(true)
}

/// Whether a value is the parameters of a trace of a block.
pub open spec fn are_trace_params(value: Json, block: Seq<char>) -> bool {
    &&& value matches Json::Array(items)
    &&& items@.len() == 2
    &&& is_text(items@[0], block)
    &&& is_diff_tracer(items@[1])
}

/// The method and the parameters that ask for the trace of a block.
pub fn trace_rpc_method_and_params(block: BlockId) -> (r: (String, Json))
    ensures
        match block {
            BlockId::Hash { block_hash, .. } => {
                &&& r.0@ == "debug_traceBlockByHash"@
                &&& are_trace_params(r.1, hex_mark() + hex_text(be_bytes(block_hash@, 32)))
            },
            BlockId::Number(number) => {
                &&& r.0@ == "debug_traceBlockByNumber"@
                &&& are_trace_params(r.1, block_param(number))
            },
        },
{
    let mut config: Vec<(String, Json)> = Vec::new();
    config.push(("diffMode".to_owned(), Json::Bool(true)));
    let mut tracer: Vec<(String, Json)> = Vec::new();
    tracer.push(("tracer".to_owned(), Json::Text("prestateTracer".to_owned())));
    tracer.push(("tracerConfig".to_owned(), Json::Object(config)));
    let (method, param): (String, String) = match block {
        BlockId::Hash { block_hash, .. } => (
            "debug_traceBlockByHash".to_owned(),
            encode_hash(block_hash),
        ),
        BlockId::Number(number) => (
            "debug_traceBlockByNumber".to_owned(),
            block_number_or_tag_param(number),
        ),
    };
    let mut items: Vec<Json> = Vec::new();
    items.push(Json::Text(param));
    items.push(Json::Object(tracer));
    (method, Json::Array(items))
}

} // verus!
