//! Call responses as one result per requested slot.

use crate::bulk_storage::packing::{decode_packed_values, packed_word};
use crate::bulk_storage::planning::{pieces_of, CallPlan, Piece, PlanModel};
use crate::errors::StorageFetchError;
use crate::foreign::{aggregate3_results, decode_aggregate3_results, results_view, SubcallResult};
use crate::primitives::{Address, U256};
use vstd::prelude::*;

verus! {

/// The outcome of one requested slot.
pub type SlotResult = (Address, U256, Result<U256, StorageFetchError>);

/// One failure for every slot of a piece.
pub open spec fn all_failed(piece: Piece, error: StorageFetchError) -> Seq<SlotResult> {
    piece.1.map_values(|s: U256| (piece.0, s, Err::<U256, StorageFetchError>(error)))
}

/// Every slot of a piece with its word of a packed payload.
pub open spec fn all_read(piece: Piece, data: Seq<u8>) -> Seq<SlotResult> {
    Seq::new(
        piece.1.len(),
        |i: int|
            (
                piece.0,
                piece.1[i],
                Ok::<U256, StorageFetchError>(U256::spec_from(packed_word(data, i))),
            ),
    )
}

/// Every slot of every piece with the same failure.
pub open spec fn every_slot_failed(pieces: Seq<Piece>, error: StorageFetchError) -> Seq<SlotResult>
    decreases pieces.len(),
{
    if pieces.len() == 0 {
        Seq::empty()
    } else {
        every_slot_failed(pieces.drop_last(), error) + all_failed(pieces.last(), error)
    }
}

/// The results of one target of a multicall.
pub open spec fn subcall_results(piece: Piece, outcome: (bool, Seq<u8>)) -> Seq<SlotResult> {
    if !outcome.0 {
        all_failed(piece, StorageFetchError::SubcallFailed)
    } else if outcome.1.len() == piece.1.len() * 32 {
        all_read(piece, outcome.1)
    } else {
        all_failed(
            piece,
            StorageFetchError::SubcallLength {
                target: piece.0,
                returned: outcome.1.len() as usize,
                expected_words: piece.1.len() as usize,
            },
        )
    }
}

/// The results of all targets of a multicall.
pub open spec fn multicall_results(
    pieces: Seq<Piece>,
    outcomes: Seq<(bool, Seq<u8>)>,
) -> Seq<SlotResult>
    decreases pieces.len(),
{
    if pieces.len() == 0 {
        Seq::empty()
    } else {
        multicall_results(pieces.drop_last(), outcomes) + subcall_results(
            pieces.last(),
            outcomes[pieces.len() - 1],
        )
    }
}

/// The results of a decoded multicall response: those of each target where
/// there is one outcome per target, else the same failure for every slot.
pub open spec fn decoded_results(
    pieces: Seq<Piece>,
    decoded: Result<Vec<SubcallResult>, String>,
) -> Seq<SlotResult> {
    match decoded {
        Ok(list) => if list@.len() == pieces.len() {
            multicall_results(pieces, list@.map_values(|s: SubcallResult| s@))
        } else {
            every_slot_failed(
                pieces,
                StorageFetchError::ResultCount {
                    returned: list@.len() as usize,
                    expected: pieces.len() as usize,
                },
            )
        },
        Err(details) => every_slot_failed(pieces, StorageFetchError::ResponseDecode { details }),
    }
}

/// Appends the same failure for every slot of one target.
fn push_failed(
    out: &mut Vec<SlotResult>,
    target: Address,
    slots: &Vec<U256>,
    error: &StorageFetchError,
)
    ensures
        final(out)@ == old(out)@ + all_failed((target, slots@), *error),
{
    let n: usize = slots.len();
    let mut i: usize = 0;
    let ghost piece: Piece = (target, slots@);
    assert(out@ =~= old(out)@ + all_failed(piece, *error).take(0));
    while i < n
        invariant
            i <= n == slots@.len(),
            piece == (target, slots@),
            out@ == old(out)@ + all_failed(piece, *error).take(i as int),
        decreases n - i,
    {
        out.push((target, slots[i], Err(error.clone())));
        assert(out@ =~= old(out)@ + all_failed(piece, *error).take(i as int + 1));
        i = i + 1;
    }
    assert(all_failed(piece, *error).take(n as int) =~= all_failed(piece, *error));
}

/// Appends every slot of one target with its value.
fn push_read(out: &mut Vec<SlotResult>, target: Address, slots: &Vec<U256>, values: &Vec<U256>)
    requires
        values@.len() == slots@.len(),
    ensures
        final(out)@ == old(out)@ + Seq::new(
            slots@.len(),
            |i: int| (target, slots@[i], Ok::<U256, StorageFetchError>(values@[i])),
        ),
{
    let n: usize = slots.len();
    let mut i: usize = 0;
    let ghost whole = Seq::new(
        slots@.len(),
        |i: int| (target, slots@[i], Ok::<U256, StorageFetchError>(values@[i])),
    );
    assert(out@ =~= old(out)@ + whole.take(0));
    while i < n
        invariant
            i <= n == slots@.len(),
            values@.len() == slots@.len(),
            whole == Seq::new(
                slots@.len(),
                |i: int| (target, slots@[i], Ok::<U256, StorageFetchError>(values@[i])),
            ),
            out@ == old(out)@ + whole.take(i as int),
        decreases n - i,
    {
        out.push((target, slots[i], Ok(values[i])));
        assert(out@ =~= old(out)@ + whole.take(i as int + 1));
        i = i + 1;
    }
    assert(whole.take(n as int) =~= whole);
}

/// Decoded words are the words of the payload.
proof fn lemma_read_values(piece: Piece, values: Seq<U256>, data: Seq<u8>)
    requires
        values.len() == piece.1.len(),
        forall|i: int|
            0 <= i < values.len() ==> (#[trigger] values[i])@ == packed_word(data, i),
    ensures
        Seq::new(
            piece.1.len(),
            |i: int| (piece.0, piece.1[i], Ok::<U256, StorageFetchError>(values[i])),
        ) == all_read(piece, data),
{
    let left = Seq::new(
        piece.1.len(),
        |i: int| (piece.0, piece.1[i], Ok::<U256, StorageFetchError>(values[i])),
    );
    assert forall|i: int| 0 <= i < piece.1.len() implies left[i] == all_read(piece, data)[i] by {
        U256::lemma_spec_from(values[i]);
        assert(values[i]@ == packed_word(data, i));
    }
    assert(left =~= all_read(piece, data));
}

/// The same failure for every slot of every target.
pub fn per_target_errors(
    targets: &[(Address, Vec<U256>)],
    error: &StorageFetchError,
) -> (out: Vec<SlotResult>)
    ensures
        out@ == every_slot_failed(pieces_of(targets@), *error),
{
    let mut out: Vec<SlotResult> = Vec::new();
    let n: usize = targets.len();
    let mut i: usize = 0;
    let ghost pieces = pieces_of(targets@);
    assert(pieces.take(0) =~= Seq::<Piece>::empty());
    while i < n
        invariant
            i <= n == targets@.len(),
            pieces == pieces_of(targets@),
            out@ == every_slot_failed(pieces.take(i as int), *error),
        decreases n - i,
    {
        push_failed(&mut out, targets[i].0, &targets[i].1, error);
        assert(pieces.take(i as int + 1).drop_last() =~= pieces.take(i as int));
        i = i + 1;
    }
    assert(pieces.take(n as int) =~= pieces);
    out
}

/// The results of a multicall whose response is already decoded.
pub fn split_decoded_response(
    targets: &[(Address, Vec<U256>)],
    decoded: Result<Vec<SubcallResult>, String>,
) -> (out: Vec<SlotResult>)
    ensures
        out@ == decoded_results(pieces_of(targets@), decoded),
{
    let list = match decoded {
        Ok(list) => list,
        Err(details) => {
            return per_target_errors(targets, &StorageFetchError::ResponseDecode { details });
        },
    };
    if list.len() != targets.len() {
        return per_target_errors(
            targets,
            &StorageFetchError::ResultCount { returned: list.len(), expected: targets.len() },
        );
    }
    let mut out: Vec<SlotResult> = Vec::new();
    let n: usize = targets.len();
    let mut i: usize = 0;
    let ghost pieces = pieces_of(targets@);
    let ghost outcomes = list@.map_values(|s: SubcallResult| s@);
    assert(pieces.take(0) =~= Seq::<Piece>::empty());
    while i < n
        invariant
            i <= n == targets@.len() == list@.len(),
            pieces == pieces_of(targets@),
            outcomes == list@.map_values(|s: SubcallResult| s@),
            out@ == multicall_results(pieces.take(i as int), outcomes),
        decreases n - i,
    {
        let target: Address = targets[i].0;
        let slots: &Vec<U256> = &targets[i].1;
        let outcome: &SubcallResult = &list[i];
        let ghost piece: Piece = (target, slots@);
        assert(pieces.take(i as int + 1).drop_last() =~= pieces.take(i as int));
        assert(outcomes[i as int] == outcome@);
        if !outcome.success {
            push_failed(&mut out, target, slots, &StorageFetchError::SubcallFailed);
        } else {
            match decode_packed_values(outcome.return_data.as_slice(), slots.len()) {
                Some(values) => {
                    proof {
                        lemma_read_values(piece, values@, outcome.return_data@);
                    }
                    push_read(&mut out, target, slots, &values);
                },
                None => push_failed(
                    &mut out,
                    target,
                    slots,
                    &StorageFetchError::SubcallLength {
                        target,
                        returned: outcome.return_data.len(),
                        expected_words: slots.len(),
                    },
                ),
            }
        }
        i = i + 1;
    }
    assert(pieces.take(n as int) =~= pieces);
    out
}

/// Whether `out` is what a multicall response amounts to for `pieces`.
pub open spec fn is_decoded_response(
    pieces: Seq<Piece>,
    response: Seq<u8>,
    out: Seq<SlotResult>,
) -> bool {
    exists|decoded: Result<Vec<SubcallResult>, String>|
        results_view(decoded) == aggregate3_results(response) && out == #[trigger] decoded_results(
            pieces,
            decoded,
        )
}

/// Decodes an `aggregate3` response into one result per requested slot.
pub fn decode_multi_target_response(
    targets: &[(Address, Vec<U256>)],
    response: &[u8],
) -> (out: Vec<SlotResult>)
    ensures
        is_decoded_response(pieces_of(targets@), response@, out@),
{
    let decoded = decode_aggregate3_results(response);
    split_decoded_response(targets, decoded)
}

/// The results of a direct extractor call that returned `data`.
pub open spec fn direct_results(piece: Piece, data: Seq<u8>) -> Seq<SlotResult> {
    if data.len() == piece.1.len() * 32 {
        all_read(piece, data)
    } else {
        all_failed(
            piece,
            StorageFetchError::ExtractorLength {
                target: piece.0,
                returned: data.len() as usize,
                expected_words: piece.1.len() as usize,
            },
        )
    }
}

/// Decodes a plan's successful call into one result per slot.
pub fn decode_plan_response(plan: &CallPlan, data: &[u8]) -> (out: Vec<SlotResult>)
    ensures
        match plan@ {
            PlanModel::Single { piece } => out@ == direct_results(piece, data@),
            PlanModel::Multi { pieces } => is_decoded_response(pieces, data@, out@),
        },
{
    match plan {
        CallPlan::Single { target, slots } => {
            let mut out: Vec<SlotResult> = Vec::new();
            let ghost piece: Piece = (*target, slots@);
            let len: usize = data.len();
            match decode_packed_values(data, slots.len()) {
                Some(values) => {
                    proof {
                        lemma_read_values(piece, values@, data@);
                    }
                    push_read(&mut out, *target, slots, &values);
                },
                None => push_failed(
                    &mut out,
                    *target,
                    slots,
                    &StorageFetchError::ExtractorLength {
                        target: *target,
                        returned: len,
                        expected_words: slots.len(),
                    },
                ),
            }
            assert(out@ =~= direct_results(piece, data@));
            out
        },
        CallPlan::Multi { targets } => {
            decode_multi_target_response(targets.as_slice(), data)
        },
    }
}

/// The same failure for every slot that a plan covers.
pub fn plan_error_results(plan: &CallPlan, error: &StorageFetchError) -> (out: Vec<SlotResult>)
    ensures
        out@ == every_slot_failed(plan@.pieces(), *error),
{
    match plan {
        CallPlan::Single { target, slots } => {
            let mut out: Vec<SlotResult> = Vec::new();
            push_failed(&mut out, *target, slots, error);
            proof {
                let pieces = plan@.pieces();
                assert(pieces.drop_last() =~= Seq::<Piece>::empty());
                assert(every_slot_failed(pieces.drop_last(), *error) == Seq::<SlotResult>::empty());
                assert(out@ =~= every_slot_failed(pieces, *error));
            }
            out
        },
        CallPlan::Multi { targets } => per_target_errors(targets.as_slice(), error),
    }
}

} // verus!
