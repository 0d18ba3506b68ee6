//! Accounts as the cache holds them.

use crate::bytes::Bytes;
use crate::collections::{Duplicate, SortedMap};
use crate::foreign::{
    bytecode_hash, code_hash_of, keccak_empty, loadable_code, spec_keccak_empty,
};
use crate::primitives::{B256, U256};
use vstd::prelude::*;

verus! {

/// Storage slots of one account.
pub type SlotMap = SortedMap<U256, U256>;

impl Duplicate for U256 {
    open spec fn same(&self, other: &Self) -> bool {
        *self == *other
    }

    fn duplicate(&self) -> (r: Self) {
        *self
    }
}

impl Duplicate for B256 {
    open spec fn same(&self, other: &Self) -> bool {
        *self == *other
    }

    fn duplicate(&self) -> (r: Self) {
        *self
    }
}

/// A copy of a slot map.
pub fn copy_slots(slots: &SlotMap) -> (r: SlotMap)
    ensures
        r@ == slots@,
{
    let r = slots.copy();
    proof {
        assert forall|k: U256| #[trigger] slots@.contains_key(k) implies slots@[k] == r@[k] by {
            assert(slots@[k].same(&r@[k]));
        }
        assert(r@ =~= slots@);
    }
    r
}

impl Duplicate for SlotMap {
    open spec fn same(&self, other: &Self) -> bool {
        self@ == other@
    }

    fn duplicate(&self) -> (r: Self) {
        copy_slots(self)
    }
}

/// Runtime code that can be loaded.
#[derive(Debug, PartialEq, Eq)]
pub struct Bytecode {
    bytes: Bytes,
}

impl View for Bytecode {
    type V = Seq<u8>;

    closed spec fn view(&self) -> Seq<u8> {
        self.bytes@
    }
}

impl Clone for Bytecode {
    fn clone(&self) -> (r: Self)
        ensures
            r == *self,
    {
        proof {
            use_type_invariant(self);
        }
        Bytecode { bytes: self.bytes.clone() }
    }
}

impl Duplicate for Bytecode {
    open spec fn same(&self, other: &Self) -> bool {
        *self == *other
    }

    fn duplicate(&self) -> (r: Self) {
        self.clone()
    }
}

impl Bytecode {
    #[verifier::type_invariant]
    spec fn inv(self) -> bool {
        loadable_code(self.bytes@)
    }

    /// No code.
    pub fn new() -> (r: Self)
        ensures
            r@ == Seq::<u8>::empty(),
    {
        Bytecode { bytes: Bytes::new() }
    }

    /// The code that `bytes` hold.
    pub fn new_raw(bytes: Bytes) -> (r: Self)
        requires
            loadable_code(bytes@),
        ensures
            r@ == bytes@,
    {
        Bytecode { bytes }
    }

    /// The code that `bytes` hold, if it can be loaded.
    pub fn new_raw_checked(bytes: Bytes) -> (r: Option<Self>)
        ensures
            match r {
                Some(code) => loadable_code(bytes@) && code@ == bytes@,
                None => !loadable_code(bytes@),
            },
    {
        let data: &[u8] = bytes.as_slice();
        if data.len() >= 2 && data[0] == 0xef && data[1] == 0x01 && (data.len() != 23 || data[2]
            != 0) {
            return None;
        }
        Some(Bytecode { bytes })
    }

    /// The bytes.
    pub fn original_bytes(&self) -> (r: Bytes)
        ensures
            r@ == self@,
            loadable_code(r@),
    {
        proof {
            use_type_invariant(self);
        }
        self.bytes.clone()
    }

    /// The number of bytes.
    pub fn len(&self) -> (r: usize)
        ensures
            r == self@.len(),
    {
        self.bytes.len()
    }

    /// Whether there is no byte.
    pub fn is_empty(&self) -> (r: bool)
        ensures
            r == (self@.len() == 0),
    {
        self.bytes.is_empty()
    }

    /// The hash that the code is known by.
    pub fn hash_slow(&self) -> (r: B256)
        ensures
            r@ == code_hash_of(self@),
            r == B256::spec_from(code_hash_of(self@)),
    {
        proof {
            use_type_invariant(self);
        }
        let hash: B256 = bytecode_hash(self.bytes.as_slice());
        proof {
            B256::lemma_spec_from(hash);
        }
        hash
    }
}

/// Balance, nonce and code of an account.
#[derive(Debug, PartialEq, Eq)]
pub struct AccountInfo {
    /// The native balance.
    pub balance: U256,
    /// The nonce.
    pub nonce: u64,
    /// The hash of the code.
    pub code_hash: B256,
    /// The code, where it is held inline.
    pub code: Option<Bytecode>,
}

/// What an [`AccountInfo`] holds.
pub struct InfoModel {
    /// The native balance.
    pub balance: U256,
    /// The nonce.
    pub nonce: u64,
    /// The hash of the code.
    pub code_hash: B256,
    /// The code, where it is held inline.
    pub code: Option<Seq<u8>>,
}

impl View for AccountInfo {
    type V = InfoModel;

    open spec fn view(&self) -> InfoModel {
        InfoModel {
            balance: self.balance,
            nonce: self.nonce,
            code_hash: self.code_hash,
            code: match self.code {
                Some(code) => Some(code@),
                None => None,
            },
        }
    }
}

impl InfoModel {
    /// An account that was never touched.
    pub open spec fn fresh() -> Self {
        InfoModel {
            balance: U256::spec_zero(),
            nonce: 0,
            code_hash: spec_keccak_empty(),
            code: Some(Seq::empty()),
        }
    }

    /// The account with the hash of no code in place of a zero hash.
    pub open spec fn normalized(self) -> Self {
        if self.code_hash@ == 0 {
            InfoModel { code_hash: spec_keccak_empty(), ..self }
        } else {
            self
        }
    }

    /// Whether there is code inline, and it is not empty.
    pub open spec fn has_code(self) -> bool {
        self.code matches Some(code) && code.len() > 0
    }
}

impl Clone for AccountInfo {
    fn clone(&self) -> (r: Self)
        ensures
            r == *self,
    {
        let code: Option<Bytecode> = match &self.code {
            Some(code) => Some(code.clone()),
            None => None,
        };
        AccountInfo { balance: self.balance, nonce: self.nonce, code_hash: self.code_hash, code }
    }
}

impl Duplicate for AccountInfo {
    open spec fn same(&self, other: &Self) -> bool {
        *self == *other
    }

    fn duplicate(&self) -> (r: Self) {
        self.clone()
    }
}

impl Default for AccountInfo {
    fn default() -> (r: Self)
        ensures
            r@ == InfoModel::fresh(),
    {
        AccountInfo {
            balance: U256::zero(),
            nonce: 0,
            code_hash: keccak_empty(),
            code: Some(Bytecode::new()),
        }
    }
}

impl AccountInfo {
    /// The account with the hash of no code in place of a zero hash.
    pub fn normalized(self) -> (r: Self)
        ensures
            r@ == self@.normalized(),
    {
        let mut info = self;
        if info.code_hash.hi == 0 && info.code_hash.lo == 0 {
            info.code_hash = keccak_empty();
        }
        info
    }

    /// Whether there is code inline, and it is not empty.
    pub fn has_code(&self) -> (r: bool)
        ensures
            r == self@.has_code(),
    {
        match &self.code {
            Some(code) => !code.is_empty(),
            None => false,
        }
    }
}

/// What is known of an account in the overlay.
#[derive(Clone, Copy, Debug, PartialEq, Eq, Structural)]
pub enum AccountState {
    /// The account does not exist.
    NotExisting,
    /// A simulation touched the account.
    Touched,
    /// Storage that is not in the overlay is zero.
    StorageCleared,
    /// Nothing happened to the account yet.
    Untouched,
}

impl AccountState {
    /// Whether storage that is not in the overlay reads as zero.
    pub open spec fn spec_clears_storage(self) -> bool {
        self == AccountState::StorageCleared || self == AccountState::NotExisting
    }

    /// Whether storage that is not in the overlay reads as zero.
    pub fn clears_storage(&self) -> (r: bool)
        ensures
            r == self.spec_clears_storage(),
    {
        match self {
            AccountState::StorageCleared | AccountState::NotExisting => true,
            _ => false,
        }
    }
}

/// An account in the overlay.
pub struct DbAccount {
    /// Balance, nonce and code.
    pub info: AccountInfo,
    /// What is known of the account.
    pub account_state: AccountState,
    /// Known slots.
    pub storage: SlotMap,
}

/// What a [`DbAccount`] holds.
#[verifier::ext_equal]
pub struct AccountModel {
    /// Balance, nonce and code.
    pub info: InfoModel,
    /// What is known of the account.
    pub account_state: AccountState,
    /// Known slots.
    pub storage: Map<U256, U256>,
}

impl View for DbAccount {
    type V = AccountModel;

    open spec fn view(&self) -> AccountModel {
        AccountModel {
            info: self.info@,
            account_state: self.account_state,
            storage: self.storage@,
        }
    }
}

impl Duplicate for DbAccount {
    open spec fn same(&self, other: &Self) -> bool {
        self@ == other@
    }

    fn duplicate(&self) -> (r: Self) {
        DbAccount {
            info: self.info.clone(),
            account_state: self.account_state,
            storage: copy_slots(&self.storage),
        }
    }
}

} // verus!
