//! Accounts proved at a block elsewhere, taken in all or not at all.

use crate::block::BlockId;
use crate::cache::account::{AccountInfo, Bytecode, InfoModel};
use crate::cache::base::lemma_marked_write_is_honest;
use crate::cache::code_seeds::CodeSeedState;
use crate::cache::evm_cache::{next_generation, EvmCache};
use crate::cache::layers::LayersModel;
use crate::cache::seeding::{hash_of, with_code};
use crate::primitives::{Address, B256, U256};
use vstd::prelude::*;

verus! {

/// One account, with what a proof says of it.
pub struct PreparedAccount {
    /// The account.
    pub address: Address,
    /// The balance proved.
    pub balance: U256,
    /// The nonce proved.
    pub nonce: u64,
    /// The code hash proved.
    pub code_hash: B256,
    /// How many slots the proof is about.
    pub proof_slots: usize,
    /// The runtime code.
    pub code: Bytecode,
}

/// What a prepared account holds.
pub struct PreparedModel {
    /// The account.
    pub address: Address,
    /// The balance proved.
    pub balance: U256,
    /// The nonce proved.
    pub nonce: u64,
    /// The code hash proved.
    pub code_hash: B256,
    /// How many slots the proof is about.
    pub proof_slots: usize,
    /// The runtime code.
    pub code: Seq<u8>,
}

impl View for PreparedAccount {
    type V = PreparedModel;

    open spec fn view(&self) -> PreparedModel {
        PreparedModel {
            address: self.address,
            balance: self.balance,
            nonce: self.nonce,
            code_hash: self.code_hash,
            proof_slots: self.proof_slots,
            code: self.code@,
        }
    }
}

/// What prepared accounts hold.
pub open spec fn prepared_model(values: Seq<PreparedAccount>) -> Seq<PreparedModel> {
    values.map_values(|value: PreparedAccount| value@)
}

/// Accounts proved at one block.
pub struct PreparedAccountPatch {
    /// The hash of the block.
    pub block_hash: B256,
    /// The height of the block.
    pub verified_at_block: u64,
    /// The accounts.
    pub values: Vec<PreparedAccount>,
}

/// Why prepared accounts were refused.
#[derive(Clone, Copy, Debug, PartialEq, Eq, Structural)]
pub enum PreparedAccountPatchError {
    /// The cache is not pinned to the block by its hash.
    BaselineMismatch {
        /// The block of the proofs.
        prepared: B256,
        /// The block the cache is pinned to, if by hash.
        cache: Option<B256>,
    },
    /// An account occurs twice.
    DuplicateAccount {
        /// The account.
        address: Address,
    },
    /// An account has no code.
    EmptyCode {
        /// The account.
        address: Address,
    },
    /// A proof is about slots too.
    UnexpectedProofSlots {
        /// The account.
        address: Address,
        /// How many.
        slots: usize,
    },
    /// The code is not the code proved.
    CodeHashMismatch {
        /// The account.
        address: Address,
        /// The hash proved.
        expected: B256,
        /// The hash of the code.
        actual: B256,
    },
    /// The account's code is meant to differ from the chain's.
    EtchedAccount {
        /// The account.
        address: Address,
    },
    /// The account has other code that was not fetched.
    SeedConflict {
        /// The account.
        address: Address,
        /// The hash of that code.
        existing: B256,
        /// The hash of the code.
        prepared: B256,
    },
}

/// Whether an account is among these.
pub open spec fn occurs(values: Seq<PreparedModel>, address: Address) -> bool {
    exists|i: int| 0 <= i < values.len() && (#[trigger] values[i]).address == address
}

/// Why one account is refused after these, if it is.
pub open spec fn account_refusal(
    marks: Map<Address, CodeSeedState>,
    earlier: Seq<PreparedModel>,
    value: PreparedModel,
) -> Option<PreparedAccountPatchError> {
    let address = value.address;
    let actual = hash_of(value.code);
    if occurs(earlier, address) {
        Some(PreparedAccountPatchError::DuplicateAccount { address })
    } else if value.code.len() == 0 {
        Some(PreparedAccountPatchError::EmptyCode { address })
    } else if value.proof_slots > 0 {
        Some(
            PreparedAccountPatchError::UnexpectedProofSlots { address, slots: value.proof_slots },
        )
    } else if actual != value.code_hash {
        Some(
            PreparedAccountPatchError::CodeHashMismatch {
                address,
                expected: value.code_hash,
                actual,
            },
        )
    } else if marks.contains_key(address) && marks[address] is Etched {
        Some(PreparedAccountPatchError::EtchedAccount { address })
    } else if marks.contains_key(address) && marks[address].spec_code_hash() != actual {
        Some(
            PreparedAccountPatchError::SeedConflict {
                address,
                existing: marks[address].spec_code_hash(),
                prepared: actual,
            },
        )
    } else {
        None
    }
}

/// Why the first refused account is refused, if one is.
pub open spec fn first_refusal(
    marks: Map<Address, CodeSeedState>,
    values: Seq<PreparedModel>,
) -> Option<PreparedAccountPatchError>
    decreases values.len(),
{
    if values.len() == 0 {
        None
    } else {
        match first_refusal(marks, values.drop_last()) {
            Some(error) => Some(error),
            None => account_refusal(marks, values.drop_last(), values.last()),
        }
    }
}

/// The block that the cache is pinned to, if by hash.
pub open spec fn pinned_hash(block: BlockId) -> Option<B256> {
    match block {
        BlockId::Hash { block_hash, .. } => Some(block_hash),
        BlockId::Number(_) => None,
    }
}

/// Why prepared accounts are refused, if they are.
pub open spec fn patch_refusal(
    cache: EvmCache,
    block_hash: B256,
    values: Seq<PreparedModel>,
) -> Option<PreparedAccountPatchError> {
    let pinned = pinned_hash(cache.context.block);
    if pinned != Some(block_hash) {
        Some(PreparedAccountPatchError::BaselineMismatch { prepared: block_hash, cache: pinned })
    } else {
        first_refusal(cache.code_seeds@, values)
    }
}

/// An account with what was proved of it.
pub open spec fn proved_info(layers: LayersModel, value: PreparedModel) -> InfoModel {
    let base = match layers.local_info(value.address) {
        Some(info) => info,
        None => InfoModel::fresh(),
    };
    with_code(InfoModel { balance: value.balance, nonce: value.nonce, ..base }, value.code)
}

/// The state with prepared accounts taken in, each as it was in `origin` but for
/// what was proved.
pub open spec fn with_prepared(
    origin: LayersModel,
    layers: LayersModel,
    values: Seq<PreparedModel>,
) -> LayersModel
    decreases values.len(),
{
    if values.len() == 0 {
        layers
    } else {
        with_prepared(origin, layers, values.drop_last()).with_info_everywhere(
            values.last().address,
            proved_info(origin, values.last()),
        )
    }
}

/// The marks with prepared accounts taken in.
pub open spec fn marks_with_prepared(
    marks: Map<Address, CodeSeedState>,
    values: Seq<PreparedModel>,
    at: u64,
) -> Map<Address, CodeSeedState>
    decreases values.len(),
{
    if values.len() == 0 {
        marks
    } else {
        marks_with_prepared(marks, values.drop_last(), at).insert(
            values.last().address,
            CodeSeedState::Verified {
                code_hash: hash_of(values.last().code),
                verified_at_block: at,
            },
        )
    }
}

impl EvmCache {
    /// Checks prepared accounts; the result is what they become.
    fn prepare_prepared_account_patch(&self, patch: &PreparedAccountPatch) -> (r: Result<
        Vec<AccountInfo>,
        PreparedAccountPatchError,
    >)
        ensures
            match patch_refusal(*self, patch.block_hash, prepared_model(patch.values@)) {
                Some(error) => r == Err::<Vec<AccountInfo>, PreparedAccountPatchError>(error),
                None => {
                    &&& r matches Ok(infos)
                    &&& infos@.len() == patch.values@.len()
                    &&& forall|i: int|
                        0 <= i < infos@.len() ==> (#[trigger] infos@[i])@ == proved_info(
                            self.layers@,
                            patch.values@[i]@,
                        )
                },
            },
    {
        let pinned: Option<B256> = match self.context.block {
            BlockId::Hash { block_hash, .. } => Some(block_hash),
            BlockId::Number(_) => None,
        };
        let matching: bool = match pinned {
            Some(hash) => hash == patch.block_hash,
            None => false,
        };
        if !matching {
            return Err(
                PreparedAccountPatchError::BaselineMismatch {
                    prepared: patch.block_hash,
                    cache: pinned,
                },
            );
        }
        let values: &Vec<PreparedAccount> = &patch.values;
        let ghost model = prepared_model(values@);
        let ghost marks = self.code_seeds@;
        let mut infos: Vec<AccountInfo> = Vec::new();
        let mut i: usize = 0;
        assert(model.take(0) =~= Seq::empty());
        while i < values.len()
            invariant
                i <= values.len(),
                *values == patch.values,
                model == prepared_model(values@),
                marks == self.code_seeds@,
                pinned_hash(self.context.block) == Some(patch.block_hash),
                first_refusal(marks, model.take(i as int)) is None,
                infos@.len() == i,
                forall|j: int|
                    0 <= j < infos@.len() ==> (#[trigger] infos@[j])@ == proved_info(
                        self.layers@,
                        values@[j]@,
                    ),
            decreases values.len() - i,
        {
            let value: &PreparedAccount = &values[i];
            let address: Address = value.address;
            let ghost earlier = model.take(i as int);
            let ghost taken = model.take(i as int + 1);
            proof {
                assert(taken.drop_last() =~= earlier);
                assert(taken.last() == value@);
            }
            let refusal: Option<PreparedAccountPatchError> = self.refuse_account(values, i);
            if let Some(error) = refusal {
                proof {
                    lemma_first_refusal_stays(marks, model, i as int + 1);
                }
                return Err(error);
            }
            let mut info: AccountInfo = match self.layers.local_account_info(address) {
                Some(info) => info,
                None => AccountInfo::default(),
            };
            info.balance = value.balance;
            info.nonce = value.nonce;
            info.code_hash = value.code.hash_slow();
            info.code = Some(value.code.clone());
            infos.push(info);
            i = i + 1;
        }
        assert(model.take(i as int) =~= model);
        Ok(infos)
    }

    /// Why one account is refused after those before it, if it is.
    fn refuse_account(&self, values: &Vec<PreparedAccount>, i: usize) -> (r: Option<
        PreparedAccountPatchError,
    >)
        requires
            i < values@.len(),
        ensures
            r == account_refusal(
                self.code_seeds@,
                prepared_model(values@).take(i as int),
                values@[i as int]@,
            ),
    {
        let value: &PreparedAccount = &values[i];
        let address: Address = value.address;
        let ghost earlier = prepared_model(values@).take(i as int);
        let mut j: usize = 0;
        while j < i
            invariant
                j <= i < values@.len(),
                earlier == prepared_model(values@).take(i as int),
                value.address == address,
                values@[i as int] == *value,
                forall|k: int| 0 <= k < j ==> (#[trigger] earlier[k]).address != address,
            decreases i - j,
        {
            if values[j].address == address {
                assert(earlier[j as int].address == address);
                assert(occurs(earlier, address));
                return Some(PreparedAccountPatchError::DuplicateAccount { address });
            }
            assert(earlier[j as int].address != address);
            j = j + 1;
        }
        assert(!occurs(earlier, address));
        if value.code.is_empty() {
            return Some(PreparedAccountPatchError::EmptyCode { address });
        }
        if value.proof_slots > 0 {
            return Some(
                PreparedAccountPatchError::UnexpectedProofSlots {
                    address,
                    slots: value.proof_slots,
                },
            );
        }
        let actual: B256 = value.code.hash_slow();
        if actual != value.code_hash {
            return Some(
                PreparedAccountPatchError::CodeHashMismatch {
                    address,
                    expected: value.code_hash,
                    actual,
                },
            );
        }
        if let Some(existing) = self.code_seeds.get(&address) {
            if let CodeSeedState::Etched { .. } = existing {
                return Some(PreparedAccountPatchError::EtchedAccount { address });
            }
            if existing.code_hash() != actual {
                return Some(
                    PreparedAccountPatchError::SeedConflict {
                        address,
                        existing: existing.code_hash(),
                        prepared: actual,
                    },
                );
            }
        }
        None
    }

    /// Checks prepared accounts without taking them in.
    pub fn validate_prepared_account_patch(&self, patch: &PreparedAccountPatch) -> (r: Result<
        (),
        PreparedAccountPatchError,
    >)
        ensures
            r == match patch_refusal(*self, patch.block_hash, prepared_model(patch.values@)) {
                Some(error) => Err::<(), PreparedAccountPatchError>(error),
                None => Ok(()),
            },
    {
        match self.prepare_prepared_account_patch(patch) {
            Ok(_) => Ok(()),
            Err(error) => Err(error),
        }
    }

    /// Takes prepared accounts in, all of them or none. The result is how many.
    pub fn apply_prepared_account_patch(&mut self, patch: &PreparedAccountPatch) -> (r: Result<
        usize,
        PreparedAccountPatchError,
    >)
        requires
            old(self).wf(),
        ensures
            final(self).wf(),
            match patch_refusal(*old(self), patch.block_hash, prepared_model(patch.values@)) {
                Some(error) => {
                    &&& r == Err::<usize, PreparedAccountPatchError>(error)
                    &&& *final(self) == *old(self)
                },
                None => {
                    let values = prepared_model(patch.values@);
                    &&& r == Ok::<usize, PreparedAccountPatchError>(values.len() as usize)
                    &&& final(self).layers@ == with_prepared(
                        old(self).layers@,
                        old(self).layers@,
                        values,
                    )
                    &&& final(self).code_seeds@ == marks_with_prepared(
                        old(self).code_seeds@,
                        values,
                        patch.verified_at_block,
                    )
                    &&& final(self).snapshot_generation == if values.len() == 0 {
                        old(self).snapshot_generation
                    } else {
                        next_generation(old(self).snapshot_generation)
                    }
                },
            },
            *final(self) == (EvmCache {
                layers: final(self).layers,
                memo: final(self).memo,
                code_seeds: final(self).code_seeds,
                snapshot_generation: final(self).snapshot_generation,
                ..*old(self)
            }),
    {
        let infos: Vec<AccountInfo> = match self.prepare_prepared_account_patch(patch) {
            Ok(infos) => infos,
            Err(error) => {
                return Err(error);
            },
        };
        let values: &Vec<PreparedAccount> = &patch.values;
        let ghost model = prepared_model(values@);
        let at: u64 = patch.verified_at_block;
        let mut i: usize = 0;
        assert(model.take(0) =~= Seq::empty());
        while i < values.len()
            invariant
                i <= values.len(),
                infos@.len() == values@.len(),
                model == prepared_model(values@),
                forall|j: int|
                    0 <= j < infos@.len() ==> (#[trigger] infos@[j])@ == proved_info(
                        old(self).layers@,
                        values@[j]@,
                    ),
                self.wf(),
                self.layers@ == with_prepared(
                    old(self).layers@,
                    old(self).layers@,
                    model.take(i as int),
                ),
                self.code_seeds@ == marks_with_prepared(
                    old(self).code_seeds@,
                    model.take(i as int),
                    at,
                ),
                *self == (EvmCache {
                    layers: self.layers,
                    memo: self.memo,
                    code_seeds: self.code_seeds,
                    ..*old(self)
                }),
            decreases values.len() - i,
        {
            let ghost before = *self;
            let address: Address = values[i].address;
            let info: AccountInfo = infos[i].clone();
            let code_hash: B256 = info.code_hash;
            self.layers.write_account_info_everywhere(address, info);
            self.memo.mark_dirty(address);
            self.code_seeds.insert(
                address,
                CodeSeedState::Verified { code_hash, verified_at_block: at },
            );
            proof {
                let taken = model.take(i as int + 1);
                assert(taken.drop_last() =~= model.take(i as int));
                assert(taken.last() == values@[i as int]@);
                lemma_marked_write_is_honest(
                    before.memo,
                    before.layers@,
                    self.memo,
                    self.layers@,
                );
            }
            i = i + 1;
        }
        assert(model.take(i as int) =~= model);
        if values.len() > 0 {
            self.bump_snapshot_generation();
        }
        Ok(values.len())
    }
}

/// A refusal stays the first whatever follows.
proof fn lemma_first_refusal_stays(
    marks: Map<Address, CodeSeedState>,
    values: Seq<PreparedModel>,
    i: int,
)
    requires
        0 <= i <= values.len(),
        first_refusal(marks, values.take(i)) is Some,
    ensures
        first_refusal(marks, values) == first_refusal(marks, values.take(i)),
    decreases values.len() - i,
{
    if i < values.len() {
        assert(values.take(i + 1).drop_last() =~= values.take(i));
        lemma_first_refusal_stays(marks, values, i + 1);
    } else {
        assert(values.take(i) =~= values);
    }
}

} // verus!
