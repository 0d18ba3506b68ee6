//! The file of data that never changes: the decimals of tokens.

use crate::cache::metadata::{
    ImmutableDataCache, IMMUTABLE_CACHE_MAGIC, IMMUTABLE_CACHE_VERSION,
};
use crate::cache::payload::{address_in, lemma_address_comes_back, read_address};
use crate::cache::versioned;
use crate::cache::versioned::{contents, frame, unframed, version_bytes};
use crate::collections::{in_order, lemma_in_order_lists, lemma_take_extend, SortedMap};
use crate::foreign::{
    decimals_in, decimals_payload, decimals_rows, decode_decimals, encode_decimals, DecimalsBytes,
    DecimalsRow,
};
use crate::primitives::{be_bytes, Address};
use vstd::prelude::*;

verus! {

/// Decimals as they stand in a payload: in the order of the tokens.
pub open spec fn listed_decimals(decimals: Map<Address, u8>) -> Seq<DecimalsRow> {
    in_order(decimals.dom()).map_values(|token: Address| (be_bytes(token@, 20), decimals[token]))
}

/// The decimals that stand in rows, later rows over earlier ones, if all of them
/// can be read.
pub open spec fn decimals_of(rows: Seq<DecimalsRow>) -> Option<Map<Address, u8>>
    decreases rows.len(),
{
    if rows.len() == 0 {
        Some(Map::empty())
    } else {
        match (decimals_of(rows.drop_last()), address_in(rows.last().0)) {
            (Some(before), Some(token)) => Some(before.insert(token, rows.last().1)),
            _ => None,
        }
    }
}

/// The decimals that a payload holds, if it holds any.
pub open spec fn decoded_decimals(payload: Seq<u8>) -> Option<Map<Address, u8>> {
    match decimals_in(payload) {
        Some(rows) => decimals_of(rows),
        None => None,
    }
}

/// The decimals that a file holds, if it is there, of the right kind and version,
/// and its payload holds any.
pub open spec fn loaded_decimals(data: Option<Seq<u8>>) -> Option<Map<Address, u8>> {
    match data {
        Some(bytes) => match unframed(bytes, IMMUTABLE_CACHE_MAGIC@, IMMUTABLE_CACHE_VERSION) {
            Some(payload) => decoded_decimals(payload),
            None => None,
        },
        None => None,
    }
}

/// Whether a file is that of decimals: its bytes, and what is read back from them.
pub open spec fn is_decimals_file(file: Seq<u8>, decimals: Map<Address, u8>) -> bool {
    &&& file == frame(
        IMMUTABLE_CACHE_MAGIC@,
        IMMUTABLE_CACHE_VERSION,
        decimals_payload(listed_decimals(decimals)),
    )
    &&& loaded_decimals(Some(file)) == Some(decimals)
}

/// The decimals of some tokens are read back from their rows.
proof fn lemma_decimals_are_read_back(decimals: Map<Address, u8>, keys: Seq<Address>)
    requires
        keys.to_set().subset_of(decimals.dom()),
    ensures
        decimals_of(
            keys.map_values(|token: Address| (be_bytes(token@, 20), decimals[token])),
        ) == Some(decimals.restrict(keys.to_set())),
    decreases keys.len(),
{
    let rows = keys.map_values(|token: Address| (be_bytes(token@, 20), decimals[token]));
    if keys.len() == 0 {
        assert(keys.to_set() =~= Set::empty());
        assert(decimals.restrict(keys.to_set()) =~= Map::empty());
    } else {
        let less = keys.drop_last();
        let last = keys.last();
        lemma_take_extend(keys, keys.len() - 1);
        assert(keys.take(keys.len() as int) =~= keys);
        assert(keys.take(keys.len() - 1) =~= less);
        lemma_decimals_are_read_back(decimals, less);
        assert(rows.drop_last() =~= less.map_values(
            |token: Address| (be_bytes(token@, 20), decimals[token]),
        ));
        assert(decimals.contains_key(last)) by {
            assert(keys.to_set().contains(last));
        }
        lemma_address_comes_back(last);
        assert(decimals.restrict(less.to_set()).insert(last, decimals[last])
            =~= decimals.restrict(keys.to_set()));
    }
}

impl ImmutableDataCache {
    /// The file to write. What it holds is read back from it.
    pub fn save(&self) -> (r: Result<Vec<u8>, String>)
        ensures
            match r {
                Ok(file) => is_decimals_file(file@, self@),
                Err(_) => false,
            },
    {
        let n: usize = self.token_decimals.len();
        let ghost order = self.token_decimals.order();
        let ghost all = listed_decimals(self@);
        let mut rows: Vec<DecimalsBytes> = Vec::new();
        let mut i: usize = 0;
        while i < n
            invariant
                i <= n == order.len(),
                self.token_decimals.order() == order,
                order == in_order(self@.dom()),
                all == listed_decimals(self@),
                decimals_rows(rows@) =~= all.take(i as int),
            decreases n - i,
        {
            let token: Address = self.token_decimals.key_at(i);
            let decimals: u8 = *self.token_decimals.value_at(i);
            let ghost before = decimals_rows(rows@);
            let row: DecimalsBytes = (token.to_vec(), decimals);
            let ghost made = (row.0@, row.1);
            assert(made == all[i as int]);
            rows.push(row);
            assert(decimals_rows(rows@) =~= before.push(made));
            i = i + 1;
        }
        assert(decimals_rows(rows@) =~= all);
        match encode_decimals(&rows) {
            Ok(payload) => {
                proof {
                    lemma_in_order_lists(self@.dom());
                    lemma_decimals_are_read_back(self@, in_order(self@.dom()));
                    assert(self@.restrict(self@.dom()) =~= self@);
                    versioned::law_frame_round_trip(
                        IMMUTABLE_CACHE_MAGIC@,
                        IMMUTABLE_CACHE_VERSION,
                        payload@,
                    );
                }
                Ok(
                    versioned::encode(
                        &IMMUTABLE_CACHE_MAGIC,
                        IMMUTABLE_CACHE_VERSION,
                        payload.as_slice(),
                    ),
                )
            },
            Err(details) => Err(details),
        }
    }

    /// The decimals of a file; none where it is not there or cannot be read.
    pub fn load(data: Option<&[u8]>) -> (r: Option<Self>)
        ensures
            match r {
                Some(cache) => loaded_decimals(contents(data)) == Some(cache@),
                None => loaded_decimals(contents(data)) is None,
            },
    {
        let bytes: &[u8] = match data {
            Some(bytes) => bytes,
            None => {
                return None;
            },
        };
        let payload: Vec<u8> = match versioned::decode(
            bytes,
            &IMMUTABLE_CACHE_MAGIC,
            IMMUTABLE_CACHE_VERSION,
        ) {
            Some(payload) => payload,
            None => {
                return None;
            },
        };
        match decode_decimals(payload.as_slice()) {
            Some(rows) => Self::read_rows(&rows),
            None => None,
        }
    }

    /// The decimals that stand in rows, if all of them can be read.
    fn read_rows(rows: &Vec<DecimalsBytes>) -> (r: Option<Self>)
        ensures
            match r {
                Some(cache) => decimals_of(decimals_rows(rows@)) == Some(cache@),
                None => decimals_of(decimals_rows(rows@)) is None,
            },
    {
        let ghost all = decimals_rows(rows@);
        let mut token_decimals: SortedMap<Address, u8> = SortedMap::new();
        let mut readable: bool = true;
        let mut i: usize = 0;
        assert(all.take(0) =~= Seq::empty());
        while i < rows.len()
            invariant
                i <= rows.len(),
                all == decimals_rows(rows@),
                readable ==> decimals_of(all.take(i as int)) == Some(token_decimals@),
                !readable ==> decimals_of(all.take(i as int)) is None,
            decreases rows.len() - i,
        {
            proof {
                assert(all.take(i + 1).drop_last() =~= all.take(i as int));
                assert(all.take(i + 1).last() == all[i as int]);
            }
            match read_address(&rows[i].0) {
                Some(token) => {
                    token_decimals.insert(token, rows[i].1);
                },
                None => {
                    readable = false;
                },
            }
            i = i + 1;
        }
        assert(all.take(i as int) =~= all);
        if readable {
            Some(ImmutableDataCache { token_decimals })
        } else {
            None
        }
    }
}

/// Decimals that are saved and loaded come back, all of them and nothing else. The
/// file starts with its kind, `EFCMETA` and a zero byte, and its version.
pub proof fn law_saved_decimals_come_back(
    file: Seq<u8>,
    saved: ImmutableDataCache,
    loaded: Option<ImmutableDataCache>,
)
    requires
        is_decimals_file(file, saved@),
        match loaded {
            Some(cache) => loaded_decimals(Some(file)) == Some(cache@),
            None => loaded_decimals(Some(file)) is None,
        },
    ensures
        file.take(8) == seq![0x45u8, 0x46u8, 0x43u8, 0x4du8, 0x45u8, 0x54u8, 0x41u8, 0u8],
        file.subrange(8, 12) == seq![2u8, 0u8, 0u8, 0u8],
        loaded is Some,
        loaded->0@ == saved@,
{
    versioned::law_frame_starts_with_its_kind(
        IMMUTABLE_CACHE_MAGIC@,
        IMMUTABLE_CACHE_VERSION,
        decimals_payload(listed_decimals(saved@)),
    );
    assert(IMMUTABLE_CACHE_MAGIC@ =~= seq![
        0x45u8,
        0x46u8,
        0x43u8,
        0x4du8,
        0x45u8,
        0x54u8,
        0x41u8,
        0u8,
    ]);
    assert(version_bytes(2) =~= seq![2u8, 0u8, 0u8, 0u8]);
}

} // verus!
