//! Caller-supplied extraction programs and the companion extractors.

use crate::bulk_storage::config::{
    multicall3_address, ACCOUNT_FIELDS_EXTRACTOR_CODE, BLOCK_CONTEXT_EXTRACTOR_CODE,
};
use crate::bulk_storage::dispatch::{aggregate3_calldata, aggregate3_selector};
use crate::bytes::Bytes;
use crate::collections::{SortedMap, SortedSet};
use crate::errors::StorageFetchError;
use crate::foreign::{
    aggregate3_arguments, aggregate3_results, decode_aggregate3_results, results_view, Call3,
    SubcallResult,
};
use crate::primitives::{be_bytes, be_value, Address, B256, U256};
use vstd::prelude::*;

verus! {

/// A program that runs at a target's address and reads its storage.
#[derive(Debug, PartialEq, Eq)]
pub struct StorageProgram {
    /// The address whose code the program replaces during the call.
    pub target: Address,
    /// The code to run there.
    pub code: Bytes,
    /// The calldata.
    pub calldata: Bytes,
}

/// Which programs share a multicall, and which run alone.
#[derive(Debug, PartialEq, Eq)]
pub struct ProgramSplit {
    /// Positions of the programs that share a multicall.
    pub bundle: Vec<usize>,
    /// Positions of the programs that run alone.
    pub individual: Vec<usize>,
}

/// Whether the program at `i` is the first at its target, which is not the
/// dispatcher.
pub open spec fn shareable(programs: Seq<StorageProgram>, i: int) -> bool {
    &&& programs[i].target != multicall3_address()
    &&& forall|j: int| 0 <= j < i ==> (#[trigger] programs[j]).target != programs[i].target
}

/// The positions below `n` at which programs can share a multicall, ascending.
pub open spec fn shareable_below(programs: Seq<StorageProgram>, n: nat) -> Seq<usize>
    decreases n,
{
    if n == 0 {
        Seq::empty()
    } else if shareable(programs, n - 1) {
        shareable_below(programs, (n - 1) as nat).push((n - 1) as usize)
    } else {
        shareable_below(programs, (n - 1) as nat)
    }
}

/// The positions below `n` at which programs cannot share a multicall,
/// ascending.
pub open spec fn unshareable_below(programs: Seq<StorageProgram>, n: nat) -> Seq<usize>
    decreases n,
{
    if n == 0 {
        Seq::empty()
    } else if shareable(programs, n - 1) {
        unshareable_below(programs, (n - 1) as nat)
    } else {
        unshareable_below(programs, (n - 1) as nat).push((n - 1) as usize)
    }
}

/// The programs that share a multicall: the shareable ones, if there are at
/// least two.
pub open spec fn bundle_of(programs: Seq<StorageProgram>) -> Seq<usize> {
    let shared = shareable_below(programs, programs.len());
    if shared.len() == 1 {
        Seq::empty()
    } else {
        shared
    }
}

/// The programs that run alone; a lone shareable one comes last.
pub open spec fn individual_of(programs: Seq<StorageProgram>) -> Seq<usize> {
    let shared = shareable_below(programs, programs.len());
    let alone = unshareable_below(programs, programs.len());
    if shared.len() == 1 {
        alone + shared
    } else {
        alone
    }
}

/// Decides which programs share a multicall: those with distinct targets other
/// than the dispatcher. A multicall of one would only add overhead.
pub fn split_programs(programs: &[StorageProgram]) -> (r: ProgramSplit)
    ensures
        r.bundle@ == bundle_of(programs@),
        r.individual@ == individual_of(programs@),
{
    let mut seen: SortedSet<Address> = SortedSet::new();
    let mut bundle: Vec<usize> = Vec::new();
    let mut individual: Vec<usize> = Vec::new();
    let n: usize = programs.len();
    let mut i: usize = 0;
    while i < n
        invariant
            i <= n == programs@.len(),
            forall|a: Address| #[trigger]
                seen@.contains(a) <==> a != multicall3_address() && exists|j: int|
                    0 <= j < i && (#[trigger] programs@[j]).target == a,
            bundle@ == shareable_below(programs@, i as nat),
            individual@ == unshareable_below(programs@, i as nat),
        decreases n - i,
    {
        let target: Address = programs[i].target;
        let ghost before = seen@;
        if target != multicall3_address() && seen.insert(target) {
            assert(shareable(programs@, i as int)) by {
                assert(!before.contains(target));
            }
            bundle.push(i);
        } else {
            assert(!shareable(programs@, i as int)) by {
                if target != multicall3_address() {
                    assert(before.contains(target));
                }
            }
            individual.push(i);
        }
        proof {
            assert forall|a: Address| #[trigger] seen@.contains(a) <==> a != multicall3_address()
                && exists|j: int| 0 <= j < i + 1 && (#[trigger] programs@[j]).target == a by {
                if before.contains(a) {
                    let j = choose|j: int| 0 <= j < i && (#[trigger] programs@[j]).target == a;
                    assert(programs@[j].target == a);
                }
                if a == target {
                    assert(programs@[i as int].target == a);
                }
                if a != multicall3_address() && exists|j: int|
                    0 <= j < i + 1 && (#[trigger] programs@[j]).target == a {
                    let j = choose|j: int| 0 <= j < i + 1 && (#[trigger] programs@[j]).target == a;
                    if j < i {
                        assert(before.contains(a));
                    }
                }
            }
        }
        i = i + 1;
    }
    if bundle.len() == 1 {
        individual.append(&mut bundle);
    }
    ProgramSplit { bundle, individual }
}

/// The calls of a multicall over the programs at `positions`.
pub open spec fn program_calls(
    programs: Seq<StorageProgram>,
    positions: Seq<usize>,
) -> Seq<(nat, bool, Seq<u8>)> {
    positions.map_values(
        |i: usize| (programs[i as int].target@, true, programs[i as int].calldata@),
    )
}

/// Whether all of `positions` are positions of a list of `n`.
pub open spec fn positions_below(positions: Seq<usize>, n: nat) -> bool {
    forall|k: int| 0 <= k < positions.len() ==> (#[trigger] positions[k]) < n
}

/// The calldata of a multicall over the programs at `positions`.
pub fn program_bundle_calldata(programs: &[StorageProgram], positions: &Vec<usize>) -> (r: Bytes)
    requires
        positions_below(positions@, programs@.len()),
    ensures
        r@ == aggregate3_selector() + aggregate3_arguments(program_calls(programs@, positions@)),
{
    let mut calls: Vec<Call3> = Vec::new();
    let n: usize = positions.len();
    let mut k: usize = 0;
    let ghost wanted = program_calls(programs@, positions@);
    while k < n
        invariant
            k <= n == positions@.len(),
            positions_below(positions@, programs@.len()),
            wanted == program_calls(programs@, positions@),
            calls@.map_values(|c: Call3| c@) == wanted.take(k as int),
        decreases n - k,
    {
        let i: usize = positions[k];
        let ghost before = calls@.map_values(|c: Call3| c@);
        calls.push(
            Call3 {
                target: programs[i].target,
                allow_failure: true,
                call_data: programs[i].calldata.clone(),
            },
        );
        assert(calls@.map_values(|c: Call3| c@) =~= before.push(calls@[k as int]@));
        assert(calls@.map_values(|c: Call3| c@) =~= wanted.take(k as int + 1));
        k = k + 1;
    }
    assert(wanted.take(n as int) =~= wanted);
    aggregate3_calldata(&calls)
}

/// The code overrides of a multicall over the programs at `positions`: the
/// dispatcher's code, and each program's code at its target.
pub open spec fn program_overrides(
    programs: Seq<StorageProgram>,
    positions: Seq<usize>,
    dispatcher: Bytes,
) -> Map<Address, Bytes>
    decreases positions.len(),
{
    if positions.len() == 0 {
        Map::empty().insert(multicall3_address(), dispatcher)
    } else {
        let program = programs[positions.last() as int];
        program_overrides(programs, positions.drop_last(), dispatcher).insert(
            program.target,
            program.code,
        )
    }
}

/// The code overrides of a multicall over the programs at `positions`.
pub fn program_bundle_overrides(
    programs: &[StorageProgram],
    positions: &Vec<usize>,
    dispatcher: &Bytes,
) -> (codes: SortedMap<Address, Bytes>)
    requires
        positions_below(positions@, programs@.len()),
    ensures
        codes@ == program_overrides(programs@, positions@, *dispatcher),
{
    let mut codes: SortedMap<Address, Bytes> = SortedMap::new();
    codes.insert(multicall3_address(), dispatcher.clone());
    let n: usize = positions.len();
    let mut k: usize = 0;
    assert(positions@.take(0) =~= Seq::<usize>::empty());
    while k < n
        invariant
            k <= n == positions@.len(),
            positions_below(positions@, programs@.len()),
            codes@ == program_overrides(programs@, positions@.take(k as int), *dispatcher),
        decreases n - k,
    {
        let i: usize = positions[k];
        codes.insert(programs[i].target, programs[i].code.clone());
        assert(positions@.take(k as int + 1).drop_last() =~= positions@.take(k as int));
        k = k + 1;
    }
    assert(positions@.take(n as int) =~= positions@);
    codes
}

/// The outcome of one program.
pub type ProgramResult = Result<Bytes, StorageFetchError>;

/// The results of a multicall over `count` programs whose response decoded to
/// `decoded`.
pub open spec fn decoded_program_results(
    count: nat,
    decoded: Result<Vec<SubcallResult>, String>,
) -> Seq<ProgramResult> {
    match decoded {
        Ok(list) => if list@.len() == count {
            list@.map_values(
                |s: SubcallResult|
                    if s.success {
                        Ok::<Bytes, StorageFetchError>(s.return_data)
                    } else {
                        Err::<Bytes, StorageFetchError>(StorageFetchError::ProgramFailed)
                    },
            )
        } else {
            let error = StorageFetchError::ResultCount {
                returned: list@.len() as usize,
                expected: count as usize,
            };
            Seq::new(count, |k: int| Err::<Bytes, StorageFetchError>(error))
        },
        Err(details) => Seq::new(
            count,
            |k: int|
                Err::<Bytes, StorageFetchError>(StorageFetchError::ResponseDecode { details }),
        ),
    }
}

/// The same failure `count` times.
fn repeat_failure(error: &StorageFetchError, count: usize) -> (out: Vec<ProgramResult>)
    ensures
        out@ == Seq::new(count as nat, |k: int| Err::<Bytes, StorageFetchError>(*error)),
{
    let mut out: Vec<ProgramResult> = Vec::new();
    let mut k: usize = 0;
    while k < count
        invariant
            k <= count,
            out@ == Seq::new(k as nat, |k: int| Err::<Bytes, StorageFetchError>(*error)),
        decreases count - k,
    {
        out.push(Err(error.clone()));
        assert(out@ =~= Seq::new(
            (k + 1) as nat,
            |k: int| Err::<Bytes, StorageFetchError>(*error),
        ));
        k = k + 1;
    }
    out
}

/// One result per program of a multicall whose response is already decoded.
pub fn split_program_response(
    count: usize,
    decoded: Result<Vec<SubcallResult>, String>,
) -> (out: Vec<ProgramResult>)
    ensures
        out@ == decoded_program_results(count as nat, decoded),
{
    let list = match decoded {
        Ok(list) => list,
        Err(details) => {
            return repeat_failure(&StorageFetchError::ResponseDecode { details }, count);
        },
    };
    if list.len() != count {
        return repeat_failure(
            &StorageFetchError::ResultCount { returned: list.len(), expected: count },
            count,
        );
    }
    let ghost wanted = decoded_program_results(count as nat, decoded);
    let mut out: Vec<ProgramResult> = Vec::new();
    let mut k: usize = 0;
    while k < count
        invariant
            k <= count == list@.len(),
            wanted == list@.map_values(
                |s: SubcallResult|
                    if s.success {
                        Ok::<Bytes, StorageFetchError>(s.return_data)
                    } else {
                        Err::<Bytes, StorageFetchError>(StorageFetchError::ProgramFailed)
                    },
            ),
            out@ == wanted.take(k as int),
        decreases count - k,
    {
        if list[k].success {
            out.push(Ok(list[k].return_data.clone()));
        } else {
            out.push(Err(StorageFetchError::ProgramFailed));
        }
        assert(out@ =~= wanted.take(k as int + 1));
        k = k + 1;
    }
    assert(wanted.take(count as int) =~= wanted);
    out
}

/// One result per program of a multicall: what the call returned, decoded, or
/// the call's own failure for every program.
pub fn program_bundle_results(
    count: usize,
    response: Result<Bytes, StorageFetchError>,
) -> (out: Vec<ProgramResult>)
    ensures
        match response {
            Ok(data) => exists|decoded: Result<Vec<SubcallResult>, String>|
                results_view(decoded) == aggregate3_results(data@) && out@
                    == #[trigger] decoded_program_results(count as nat, decoded),
            Err(error) => out@ == Seq::new(
                count as nat,
                |k: int| Err::<Bytes, StorageFetchError>(error),
            ),
        },
{
    match response {
        Ok(data) => {
            let decoded = decode_aggregate3_results(data.as_slice());
            split_program_response(count, decoded)
        },
        Err(error) => repeat_failure(&error, count),
    }
}

/// Whether every position of a list of `n` is in exactly one of two lists of
/// positions, and there once.
pub open spec fn partitions(a: Seq<usize>, b: Seq<usize>, n: nat) -> bool {
    &&& positions_below(a, n)
    &&& positions_below(b, n)
    &&& (a + b).no_duplicates()
    &&& forall|i: usize| i < n ==> #[trigger] (a + b).contains(i)
}

/// Puts results back in the order of the programs.
pub fn place_program_results(
    n: usize,
    split: &ProgramSplit,
    bundled: Vec<ProgramResult>,
    alone: Vec<ProgramResult>,
) -> (out: Vec<ProgramResult>)
    requires
        partitions(split.bundle@, split.individual@, n as nat),
        bundled@.len() == split.bundle@.len(),
        alone@.len() == split.individual@.len(),
    ensures
        out@.len() == n,
        forall|k: int|
            0 <= k < bundled@.len() ==> out@[split.bundle@[k] as int] == #[trigger] bundled@[k],
        forall|k: int|
            0 <= k < alone@.len() ==> out@[split.individual@[k] as int] == #[trigger] alone@[k],
{
    let mut slots: Vec<Option<ProgramResult>> = Vec::new();
    let mut i: usize = 0;
    while i < n
        invariant
            i <= n,
            slots@.len() == i,
        decreases n - i,
    {
        slots.push(None);
        i = i + 1;
    }
    let ghost a = split.bundle@;
    let ghost b = split.individual@;
    proof {
        assert forall|j: int, k: int| 0 <= j < a.len() && 0 <= k < a.len() && j != k implies a[j]
            != a[k] by {
            assert((a + b)[j] == a[j] && (a + b)[k] == a[k]);
        }
        assert forall|j: int, k: int| 0 <= j < b.len() && 0 <= k < b.len() && j != k implies b[j]
            != b[k] by {
            assert((a + b)[j + a.len()] == b[j] && (a + b)[k + a.len()] == b[k]);
        }
    }
    fill(&mut slots, &split.bundle, bundled);
    let ghost middle = slots@;
    fill(&mut slots, &split.individual, alone);
    proof {
        assert forall|k: int| 0 <= k < a.len() implies slots@[a[k] as int] == Some(
            #[trigger] bundled@[k],
        ) by {
            if b.contains(a[k]) {
                let j = b.index_of(a[k]);
                assert((a + b)[k] == (a + b)[j + a.len()]);
            }
            assert(middle[a[k] as int] == Some(bundled@[k]));
        }
        assert forall|i: int| 0 <= i < n implies (#[trigger] slots@[i]) is Some by {
            assert((a + b).contains(i as usize));
            let k = (a + b).index_of(i as usize);
            if k < a.len() {
                assert(a[k] == i);
                assert(slots@[a[k] as int] == Some(bundled@[k]));
            } else {
                assert(b[k - a.len()] == i);
                assert(slots@[b[k - a.len()] as int] == Some(alone@[k - a.len()]));
            }
        }
    }
    let mut out: Vec<ProgramResult> = Vec::new();
    let ghost filled = slots@;
    for slot in it: slots
        invariant
            filled == it.seq(),
            forall|i: int| 0 <= i < filled.len() ==> (#[trigger] filled[i]) is Some,
            out@.len() == it.index(),
            forall|i: int| 0 <= i < out@.len() ==> filled[i] == Some(#[trigger] out@[i]),
    {
        assert(filled[it.index()] == slot);
        if let Some(result) = slot {
            out.push(result);
        }
    }
    proof {
        assert forall|k: int| 0 <= k < bundled@.len() implies out@[split.bundle@[k] as int]
            == #[trigger] bundled@[k] by {
            assert(filled[a[k] as int] == Some(out@[a[k] as int]));
        }
        assert forall|k: int| 0 <= k < alone@.len() implies out@[split.individual@[k] as int]
            == #[trigger] alone@[k] by {
            assert(filled[b[k] as int] == Some(out@[b[k] as int]));
        }
    }
    out
}

/// Stores results at their positions.
fn fill(
    slots: &mut Vec<Option<ProgramResult>>,
    positions: &Vec<usize>,
    results: Vec<ProgramResult>,
)
    requires
        results@.len() == positions@.len(),
        positions_below(positions@, old(slots)@.len()),
        positions@.no_duplicates(),
    ensures
        final(slots)@.len() == old(slots)@.len(),
        forall|k: int|
            0 <= k < results@.len() ==> final(slots)@[positions@[k] as int] == Some(
                #[trigger] results@[k],
            ),
        forall|i: int|
            0 <= i < old(slots)@.len() && !positions@.contains(i as usize)
                ==> #[trigger] final(slots)@[i] == old(slots)@[i],
{
    let mut k: usize = 0;
    let n: usize = positions.len();
    let ghost all = results@;
    for result in it: results
        invariant
            n == positions@.len(),
            k == it.index(),
            all == it.seq(),
            all.len() == positions@.len(),
            slots@.len() == old(slots)@.len(),
            positions_below(positions@, slots@.len()),
            positions@.no_duplicates(),
            forall|j: int|
                0 <= j < k ==> slots@[positions@[j] as int] == Some(#[trigger] all[j]),
            forall|i: int|
                0 <= i < old(slots)@.len() && !positions@.contains(i as usize)
                    ==> #[trigger] slots@[i] == old(slots)@[i],
    {
        assert(all[k as int] == result);
        let at: usize = positions[k];
        let ghost before = slots@;
        slots[at] = Some(result);
        proof {
            assert(positions@.contains(at));
            assert forall|j: int| 0 <= j < k + 1 implies slots@[positions@[j] as int] == Some(
                #[trigger] all[j],
            ) by {
                if j < k {
                    assert(positions@[j] != positions@[k as int]);
                }
            }
        }
        k = k + 1;
    }
}

/// Every program is in exactly one part of the split.
pub proof fn law_split_covers_programs(programs: Seq<StorageProgram>)
    requires
        programs.len() <= usize::MAX,
    ensures
        partitions(bundle_of(programs), individual_of(programs), programs.len()),
{
    let n = programs.len();
    let shared = shareable_below(programs, n);
    let alone = unshareable_below(programs, n);
    lemma_below_partition(programs, n);
    let a = bundle_of(programs);
    let b = individual_of(programs);
    let both = shared + alone;
    if shared.len() == 1 {
        assert(a + b =~= alone + shared);
        assert forall|i: usize| i < n implies #[trigger] (a + b).contains(i) by {
            assert(both.contains(i));
            let k = both.index_of(i);
            if k < shared.len() {
                assert((a + b)[alone.len() + k] == i);
            } else {
                assert((a + b)[k - shared.len()] == i);
            }
        }
        assert forall|j: int, k: int|
            0 <= j < (a + b).len() && 0 <= k < (a + b).len() && j != k implies (a + b)[j] != (a
            + b)[k] by {
            let jj = if j < alone.len() {
                j + shared.len()
            } else {
                j - alone.len()
            };
            let kk = if k < alone.len() {
                k + shared.len()
            } else {
                k - alone.len()
            };
            assert(both[jj] == (a + b)[j]);
            assert(both[kk] == (a + b)[k]);
        }
        assert forall|k: int| 0 <= k < b.len() implies (#[trigger] b[k]) < n by {
            if k >= alone.len() {
                assert(shared[k - alone.len()] < n);
            } else {
                assert(alone[k] < n);
            }
        }
    }
}

/// The positions below `n` are the shareable and the unshareable ones.
proof fn lemma_below_partition(programs: Seq<StorageProgram>, n: nat)
    requires
        n <= usize::MAX,
    ensures
        partitions(shareable_below(programs, n), unshareable_below(programs, n), n),
    decreases n,
{
    if n > 0 {
        let m = (n - 1) as nat;
        lemma_below_partition(programs, m);
        let a0 = shareable_below(programs, m);
        let b0 = unshareable_below(programs, m);
        let a = shareable_below(programs, n);
        let b = unshareable_below(programs, n);
        let last = m as usize;
        if shareable(programs, n - 1) {
            assert(a =~= a0.push(last));
            assert forall|i: usize| i < n implies #[trigger] (a + b).contains(i) by {
                if i == last {
                    assert((a + b)[a0.len() as int] == i);
                } else {
                    assert((a0 + b0).contains(i));
                    let k = (a0 + b0).index_of(i);
                    if k < a0.len() {
                        assert((a + b)[k] == i);
                    } else {
                        assert((a + b)[k + 1] == i);
                    }
                }
            }
            assert forall|j: int, k: int|
                0 <= j < (a + b).len() && 0 <= k < (a + b).len() && j != k implies (a + b)[j] != (a
                + b)[k] by {
                lemma_shifted(a0, b0, last, m, j);
                lemma_shifted(a0, b0, last, m, k);
                let jj = if j < a0.len() {
                    j
                } else {
                    j - 1
                };
                let kk = if k < a0.len() {
                    k
                } else {
                    k - 1
                };
                if j != a0.len() && k != a0.len() {
                    assert((a0 + b0)[jj] != (a0 + b0)[kk]);
                }
            }
        } else {
            assert(b =~= b0.push(last));
            assert(a + b =~= (a0 + b0).push(last));
            assert forall|i: usize| i < n implies #[trigger] (a + b).contains(i) by {
                if i == last {
                    assert((a + b)[(a0 + b0).len() as int] == i);
                } else {
                    assert((a0 + b0).contains(i));
                    let k = (a0 + b0).index_of(i);
                    assert((a + b)[k] == i);
                }
            }
            assert forall|j: int, k: int|
                0 <= j < (a + b).len() && 0 <= k < (a + b).len() && j != k implies (a + b)[j] != (a
                + b)[k] by {
                let e = (a0 + b0).len() as int;
                if j < e {
                    lemma_member_below(a0, b0, m, j);
                }
                if k < e {
                    lemma_member_below(a0, b0, m, k);
                }
            }
        }
    }
}

/// A member of either list is below the bound.
proof fn lemma_member_below(a: Seq<usize>, b: Seq<usize>, n: nat, k: int)
    requires
        partitions(a, b, n),
        0 <= k < (a + b).len(),
    ensures
        (a + b)[k] < n,
{
    if k < a.len() {
        assert((a + b)[k] == a[k]);
    } else {
        assert((a + b)[k] == b[k - a.len()]);
    }
}

/// What stands at a position once `last` was added behind the first list.
proof fn lemma_shifted(a: Seq<usize>, b: Seq<usize>, last: usize, n: nat, k: int)
    requires
        partitions(a, b, n),
        last == n,
        0 <= k <= (a + b).len(),
    ensures
        k < a.len() ==> (a.push(last) + b)[k] == (a + b)[k] && (a + b)[k] < n,
        k == a.len() ==> (a.push(last) + b)[k] == last,
        k > a.len() ==> (a.push(last) + b)[k] == (a + b)[k - 1] && (a + b)[k - 1] < n,
{
    if k < a.len() {
        lemma_member_below(a, b, n, k);
    } else if k > a.len() {
        lemma_member_below(a, b, n, k - 1);
    }
}

/// Balance and code hash of one account.
#[derive(Clone, Copy, Debug, PartialEq, Eq, Structural)]
pub struct AccountFieldsSample {
    /// The native balance.
    pub balance: U256,
    /// Zero for an account that does not exist, the hash of no code for one
    /// without code.
    pub code_hash: B256,
}

/// The addresses as 32-byte words, side by side.
pub open spec fn padded_addresses(addresses: Seq<Address>) -> Seq<u8>
    decreases addresses.len(),
{
    if addresses.len() == 0 {
        Seq::empty()
    } else {
        padded_addresses(addresses.drop_last()) + be_bytes(addresses.last()@, 32)
    }
}

/// The program that samples balance and code hash of many accounts. It runs at
/// the dispatcher's address, so the accounts themselves stay untouched.
pub fn account_fields_program(addresses: &[Address]) -> (r: StorageProgram)
    ensures
        r.target == multicall3_address(),
        r.code@ == ACCOUNT_FIELDS_EXTRACTOR_CODE@,
        r.calldata@ == padded_addresses(addresses@),
{
    let mut data: Vec<u8> = Vec::new();
    let n: usize = addresses.len();
    let mut i: usize = 0;
    while i < n
        invariant
            i <= n == addresses@.len(),
            data@ == padded_addresses(addresses@.take(i as int)),
        decreases n - i,
    {
        addresses[i].into_word().append_to(&mut data);
        assert(addresses@.take(i as int + 1).drop_last() =~= addresses@.take(i as int));
        i = i + 1;
    }
    assert(addresses@.take(n as int) =~= addresses@);
    StorageProgram {
        target: multicall3_address(),
        code: Bytes::from_slice(ACCOUNT_FIELDS_EXTRACTOR_CODE.as_slice()),
        calldata: Bytes::from_vec(data),
    }
}

/// The sample of the account at position `i`: two words of the output.
pub open spec fn is_sample(sample: AccountFieldsSample, data: Seq<u8>, i: int) -> bool {
    &&& sample.balance@ == be_value(data.subrange(64 * i, 64 * i + 32))
    &&& sample.code_hash@ == be_value(data.subrange(64 * i + 32, 64 * i + 64))
}

/// Decodes the output of the account-fields program: two words per account, or
/// a failure where it is not that long.
pub fn decode_account_fields(addresses: &[Address], data: &[u8]) -> (r: Result<
    Vec<(Address, AccountFieldsSample)>,
    StorageFetchError,
>)
    ensures
        match r {
            Ok(samples) => data@.len() == addresses@.len() * 64 && samples@.len()
                == addresses@.len() && forall|i: int|
                0 <= i < samples@.len() ==> (#[trigger] samples@[i]).0 == addresses@[i]
                    && is_sample(samples@[i].1, data@, i),
            Err(error) => data@.len() != addresses@.len() * 64 && error
                == StorageFetchError::AccountFieldsLength {
                returned: data@.len() as usize,
                accounts: addresses@.len() as usize,
            },
        },
{
    let len: usize = data.len();
    let n: usize = addresses.len();
    if len % 64 != 0 || len / 64 != n {
        return Err(StorageFetchError::AccountFieldsLength { returned: len, accounts: n });
    }
    let mut samples: Vec<(Address, AccountFieldsSample)> = Vec::new();
    let mut i: usize = 0;
    while i < n
        invariant
            i <= n == addresses@.len(),
            data@.len() == n * 64,
            data@.len() <= usize::MAX,
            samples@.len() == i,
            forall|j: int|
                0 <= j < i ==> (#[trigger] samples@[j]).0 == addresses@[j] && is_sample(
                    samples@[j].1,
                    data@,
                    j,
                ),
        decreases n - i,
    {
        let sample = AccountFieldsSample {
            balance: U256::from_be_slice(data, 64 * i),
            code_hash: B256::from_slice(data, 64 * i + 32),
        };
        samples.push((addresses[i], sample));
        i = i + 1;
    }
    Ok(samples)
}

/// The context of one block, as a program sees it.
#[derive(Clone, Copy, Debug, PartialEq, Eq, Structural)]
pub struct BlockContextSample {
    /// The height.
    pub number: u64,
    /// The timestamp.
    pub timestamp: u64,
    /// The base fee.
    pub basefee: U256,
    /// The beneficiary.
    pub coinbase: Address,
    /// The randomness.
    pub prevrandao: B256,
    /// The gas limit.
    pub gas_limit: u64,
    /// The chain id.
    pub chain_id: u64,
}

/// The program that samples a block's context.
pub fn block_context_program() -> (r: StorageProgram)
    ensures
        r.target == multicall3_address(),
        r.code@ == BLOCK_CONTEXT_EXTRACTOR_CODE@,
        r.calldata@ == Seq::<u8>::empty(),
{
    StorageProgram {
        target: multicall3_address(),
        code: Bytes::from_slice(BLOCK_CONTEXT_EXTRACTOR_CODE.as_slice()),
        calldata: Bytes::new(),
    }
}

/// The word at position `i`.
pub open spec fn context_word(data: Seq<u8>, i: int) -> nat {
    be_value(data.subrange(32 * i, 32 * i + 32))
}

/// A number, capped at the largest `u64`.
pub open spec fn capped_u64(value: nat) -> u64 {
    if value <= u64::MAX {
        value as u64
    } else {
        u64::MAX
    }
}

/// Decodes the output of the block-context program: seven words, or a failure.
pub fn decode_block_context(data: &[u8]) -> (r: Result<BlockContextSample, StorageFetchError>)
    ensures
        match r {
            Ok(sample) => {
                &&& data@.len() == 224
                &&& sample.number == capped_u64(context_word(data@, 0))
                &&& sample.timestamp == capped_u64(context_word(data@, 1))
                &&& sample.basefee@ == context_word(data@, 2)
                &&& sample.coinbase@ == be_value(data@.subrange(108, 128))
                &&& sample.prevrandao@ == context_word(data@, 4)
                &&& sample.gas_limit == capped_u64(context_word(data@, 5))
                &&& sample.chain_id == capped_u64(context_word(data@, 6))
            },
            Err(error) => data@.len() != 224 && error == StorageFetchError::BlockContextLength {
                returned: data@.len() as usize,
            },
        },
{
    let len: usize = data.len();
    if len != 224 {
        return Err(StorageFetchError::BlockContextLength { returned: len });
    }
    Ok(
        BlockContextSample {
            number: U256::from_be_slice(data, 0).saturating_to_u64(),
            timestamp: U256::from_be_slice(data, 32).saturating_to_u64(),
            basefee: U256::from_be_slice(data, 64),
            coinbase: Address::from_slice(data, 108),
            prevrandao: B256::from_slice(data, 128),
            gas_limit: U256::from_be_slice(data, 160).saturating_to_u64(),
            chain_id: U256::from_be_slice(data, 192).saturating_to_u64(),
        },
    )
}

} // verus!
