//! Where code came from that was not fetched, and how far it is trusted.

use crate::cache::account::AccountInfo;
use crate::collections::{lemma_take_extend, Duplicate, SortedMap};
use crate::primitives::{Address, B256};
use vstd::prelude::*;

verus! {

/// The kind of a code-seed file.
pub const CODE_SEED_CACHE_MAGIC: [u8; 8] = [0x45, 0x46, 0x43, 0x53, 0x45, 0x45, 0x44, 0x00];

/// The version of a code-seed file.
pub const CODE_SEED_CACHE_VERSION: u32 = 1;

/// Where an account's code came from, if it was not fetched.
#[derive(Clone, Copy, Debug, PartialEq, Eq, Structural)]
pub enum CodeSeedState {
    /// Claimed to be the chain's, and not checked yet.
    Pending {
        /// The hash of the code.
        code_hash: B256,
    },
    /// Claimed to be the chain's, and found so.
    Verified {
        /// The hash of the code.
        code_hash: B256,
        /// The height at which it was found so.
        verified_at_block: u64,
    },
    /// Meant to differ from the chain's.
    Etched {
        /// The hash of the code.
        code_hash: B256,
    },
}

impl CodeSeedState {
    /// The hash of the code.
    pub open spec fn spec_code_hash(self) -> B256 {
        match self {
            CodeSeedState::Pending { code_hash } => code_hash,
            CodeSeedState::Verified { code_hash, .. } => code_hash,
            CodeSeedState::Etched { code_hash } => code_hash,
        }
    }

    /// The hash of the code.
    pub fn code_hash(&self) -> (r: B256)
        ensures
            r == self.spec_code_hash(),
    {
        match self {
            CodeSeedState::Pending { code_hash } => *code_hash,
            CodeSeedState::Verified { code_hash, .. } => *code_hash,
            CodeSeedState::Etched { code_hash } => *code_hash,
        }
    }
}

impl Duplicate for CodeSeedState {
    open spec fn same(&self, other: &Self) -> bool {
        *self == *other
    }

    fn duplicate(&self) -> (r: Self) {
        *self
    }
}

/// A copy of marks.
pub fn copy_marks(marks: &SortedMap<Address, CodeSeedState>) -> (r: SortedMap<
    Address,
    CodeSeedState,
>)
    ensures
        r@ == marks@,
{
    let r = marks.copy();
    proof {
        assert forall|a: Address| #[trigger] marks@.contains_key(a) implies marks@[a]
            == r@[a] by {
            assert(marks@[a].same(&r@[a]));
        }
        assert(r@ =~= marks@);
    }
    r
}

/// Whether the account that a mark is about still holds the code it is about.
pub open spec fn mark_survives(
    accounts: Map<Address, AccountInfo>,
    address: Address,
    mark: CodeSeedState,
) -> bool {
    accounts.contains_key(address) && accounts[address]@.has_code() && accounts[address]@.code_hash
        == mark.spec_code_hash()
}

/// The marks whose code survived.
pub fn surviving_marks(
    marks: &SortedMap<Address, CodeSeedState>,
    accounts: &SortedMap<Address, AccountInfo>,
) -> (r: SortedMap<Address, CodeSeedState>)
    ensures
        forall|a: Address| #[trigger]
            r@.contains_key(a) <==> marks@.contains_key(a) && mark_survives(
                accounts@,
                a,
                marks@[a],
            ),
        forall|a: Address| #[trigger] r@.contains_key(a) ==> r@[a] == marks@[a],
{
    let mut kept: SortedMap<Address, CodeSeedState> = SortedMap::new();
    let n: usize = marks.len();
    let ghost order = marks.order();
    let mut i: usize = 0;
    while i < n
        invariant
            i <= n == order.len(),
            order == marks.order(),
            order.to_set() == marks@.dom(),
            forall|a: Address| #[trigger]
                kept@.contains_key(a) <==> order.take(i as int).to_set().contains(a)
                    && mark_survives(accounts@, a, marks@[a]),
            forall|a: Address| #[trigger] kept@.contains_key(a) ==> kept@[a] == marks@[a],
        decreases n - i,
    {
        let address: Address = marks.key_at(i);
        let mark: CodeSeedState = *marks.value_at(i);
        proof {
            lemma_take_extend(order, i as int);
            assert(order.to_set().contains(address));
        }
        let survives: bool = match accounts.get(&address) {
            Some(info) => info.has_code() && info.code_hash == mark.code_hash(),
            None => false,
        };
        if survives {
            kept.insert(address, mark);
        }
        i = i + 1;
    }
    assert(order.take(n as int) =~= order);
    kept
}

} // verus!
