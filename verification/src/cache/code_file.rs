//! The file of code by account.

use crate::bytes::Bytes;
use crate::cache::payload::{address_in, lemma_address_comes_back, read_address};
use crate::cache::saved_state::{
    BytecodeCache, BytecodeCacheEntry, BYTECODE_CACHE_MAGIC, BYTECODE_CACHE_VERSION,
};
use crate::cache::versioned;
use crate::cache::versioned::{contents, frame, unframed, version_bytes};
use crate::collections::{in_order, lemma_in_order_lists, lemma_take_extend, SortedMap};
use crate::foreign::{
    code_rows, codes_in, codes_payload, decode_codes, encode_codes, CodeRow, CodeText,
};
use crate::primitives::{be_bytes, Address};
use crate::text::{
    decode_hex, encode_hex, hex_bytes, hex_mark, hex_text, lemma_hex_comes_back, strip_prefix,
    without_hex_mark,
};
use vstd::prelude::*;

verus! {

/// The code of an account as it stands in a payload: the digits of its bytes.
pub open spec fn code_row(address: Address, code: Seq<u8>) -> CodeRow {
    (be_bytes(address@, 20), hex_mark() + hex_text(code))
}

/// Code as it stands in a payload: in the order of the accounts.
pub open spec fn listed_codes(codes: Map<Address, Seq<u8>>) -> Seq<CodeRow> {
    in_order(codes.dom()).map_values(|address: Address| code_row(address, codes[address]))
}

/// The bytes that digits stand for, after the mark where it stands.
pub open spec fn code_in_text(text: Seq<char>) -> Option<Seq<u8>> {
    hex_bytes(
        without_hex_mark(
            if hex_mark().is_prefix_of(text) {
                text.skip(2)
            } else {
                text
            },
        ),
    )
}

/// The code that stands in a row, if its parts can be read.
pub open spec fn code_in(row: CodeRow) -> Option<(Address, Seq<u8>)> {
    match (address_in(row.0), code_in_text(row.1)) {
        (Some(address), Some(code)) => Some((address, code)),
        _ => None,
    }
}

/// The code that stands in rows, later rows over earlier ones, if all of it can be
/// read.
pub open spec fn codes_of(rows: Seq<CodeRow>) -> Option<Map<Address, Seq<u8>>>
    decreases rows.len(),
{
    if rows.len() == 0 {
        Some(Map::empty())
    } else {
        match (codes_of(rows.drop_last()), code_in(rows.last())) {
            (Some(before), Some(entry)) => Some(before.insert(entry.0, entry.1)),
            _ => None,
        }
    }
}

/// The code that a payload holds, if it holds any.
pub open spec fn decoded_codes(payload: Seq<u8>) -> Option<Map<Address, Seq<u8>>> {
    match codes_in(payload) {
        Some(rows) => codes_of(rows),
        None => None,
    }
}

/// The code that a file holds, if it is there, of the right kind and version, and
/// its payload holds any.
pub open spec fn loaded_codes(data: Option<Seq<u8>>) -> Option<Map<Address, Seq<u8>>> {
    match data {
        Some(bytes) => match unframed(bytes, BYTECODE_CACHE_MAGIC@, BYTECODE_CACHE_VERSION) {
            Some(payload) => decoded_codes(payload),
            None => None,
        },
        None => None,
    }
}

/// Whether a file is that of code: its bytes, and what is read back from them.
pub open spec fn is_codes_file(file: Seq<u8>, codes: Map<Address, Seq<u8>>) -> bool {
    &&& file == frame(
        BYTECODE_CACHE_MAGIC@,
        BYTECODE_CACHE_VERSION,
        codes_payload(listed_codes(codes)),
    )
    &&& loaded_codes(Some(file)) == Some(codes)
}

/// The bytes that digits stand for, after the mark where it stands.
fn read_code(text: &String) -> (r: Option<Vec<u8>>)
    ensures
        match r {
            Some(code) => code_in_text(text@) == Some(code@),
            None => code_in_text(text@) is None,
        },
{
    proof {
        reveal_strlit("0x");
        assert("0x"@ =~= hex_mark());
    }
    match strip_prefix(text.as_str(), "0x") {
        Some(rest) => {
            proof {
                assert(text@.subrange(0, 2) =~= hex_mark());
                assert(text@.skip(2) =~= rest@);
            }
            decode_hex(rest)
        },
        None => decode_hex(text.as_str()),
    }
}

/// Code is read back from its digits.
proof fn lemma_code_comes_back(address: Address, code: Seq<u8>)
    ensures
        code_in(code_row(address, code)) == Some((address, code)),
{
    let text = hex_mark() + hex_text(code);
    assert(text.subrange(0, 2) =~= hex_mark());
    assert(text.skip(2) =~= hex_text(code));
    lemma_hex_comes_back(code);
    lemma_address_comes_back(address);
}

/// The code of some accounts is read back from its rows.
proof fn lemma_codes_are_read_back(codes: Map<Address, Seq<u8>>, keys: Seq<Address>)
    requires
        keys.to_set().subset_of(codes.dom()),
    ensures
        codes_of(keys.map_values(|address: Address| code_row(address, codes[address]))) == Some(
            codes.restrict(keys.to_set()),
        ),
    decreases keys.len(),
{
    let rows = keys.map_values(|address: Address| code_row(address, codes[address]));
    if keys.len() == 0 {
        assert(keys.to_set() =~= Set::empty());
        assert(codes.restrict(keys.to_set()) =~= Map::empty());
    } else {
        let less = keys.drop_last();
        let last = keys.last();
        lemma_take_extend(keys, keys.len() - 1);
        assert(keys.take(keys.len() as int) =~= keys);
        assert(keys.take(keys.len() - 1) =~= less);
        lemma_codes_are_read_back(codes, less);
        assert(rows.drop_last() =~= less.map_values(
            |address: Address| code_row(address, codes[address]),
        ));
        assert(codes.contains_key(last)) by {
            assert(keys.to_set().contains(last));
        }
        lemma_code_comes_back(last, codes[last]);
        assert(codes.restrict(less.to_set()).insert(last, codes[last]) =~= codes.restrict(
            keys.to_set(),
        ));
    }
}

impl BytecodeCache {
    /// The file to write. What it holds is read back from it.
    pub fn save(&self) -> (r: Result<Vec<u8>, String>)
        ensures
            match r {
                Ok(file) => is_codes_file(file@, self@),
                Err(_) => false,
            },
    {
        let n: usize = self.contracts.len();
        let ghost order = self.contracts.order();
        let ghost all = listed_codes(self@);
        let mut rows: Vec<CodeText> = Vec::new();
        let mut i: usize = 0;
        assert(self@.dom() =~= self.contracts@.dom());
        while i < n
            invariant
                i <= n == order.len(),
                self.contracts.order() == order,
                order == in_order(self@.dom()),
                self@.dom() == self.contracts@.dom(),
                all == listed_codes(self@),
                code_rows(rows@) =~= all.take(i as int),
            decreases n - i,
        {
            let address: Address = self.contracts.key_at(i);
            let entry: &BytecodeCacheEntry = self.contracts.value_at(i);
            let ghost before = code_rows(rows@);
            let row: CodeText = (address.to_vec(), encode_hex(entry.bytecode.as_slice()));
            let ghost made = (row.0@, row.1@);
            proof {
                assert(self@[address] == entry.bytecode@);
                assert(made == all[i as int]);
            }
            rows.push(row);
            assert(code_rows(rows@) =~= before.push(made));
            i = i + 1;
        }
        assert(code_rows(rows@) =~= all);
        match encode_codes(&rows) {
            Ok(payload) => {
                proof {
                    lemma_in_order_lists(self@.dom());
                    lemma_codes_are_read_back(self@, in_order(self@.dom()));
                    assert(self@.restrict(self@.dom()) =~= self@);
                    versioned::law_frame_round_trip(
                        BYTECODE_CACHE_MAGIC@,
                        BYTECODE_CACHE_VERSION,
                        payload@,
                    );
                }
                Ok(
                    versioned::encode(
                        &BYTECODE_CACHE_MAGIC,
                        BYTECODE_CACHE_VERSION,
                        payload.as_slice(),
                    ),
                )
            },
            Err(details) => Err(details),
        }
    }

    /// The code of a file; none where it is not there or cannot be read.
    pub fn load(data: Option<&[u8]>) -> (r: Option<Self>)
        ensures
            match r {
                Some(cache) => loaded_codes(contents(data)) == Some(cache@),
                None => loaded_codes(contents(data)) is None,
            },
    {
        let bytes: &[u8] = match data {
            Some(bytes) => bytes,
            None => {
                return None;
            },
        };
        let payload: Vec<u8> = match versioned::decode(
            bytes,
            &BYTECODE_CACHE_MAGIC,
            BYTECODE_CACHE_VERSION,
        ) {
            Some(payload) => payload,
            None => {
                return None;
            },
        };
        match decode_codes(payload.as_slice()) {
            Some(rows) => Self::read_rows(&rows),
            None => None,
        }
    }

    /// The code that stands in rows, if all of it can be read.
    fn read_rows(rows: &Vec<CodeText>) -> (r: Option<Self>)
        ensures
            match r {
                Some(cache) => codes_of(code_rows(rows@)) == Some(cache@),
                None => codes_of(code_rows(rows@)) is None,
            },
    {
        let ghost all = code_rows(rows@);
        let mut cache: BytecodeCache = BytecodeCache { contracts: SortedMap::new() };
        let mut readable: bool = true;
        let mut i: usize = 0;
        proof {
            assert(all.take(0) =~= Seq::empty());
            assert(cache@ =~= Map::empty());
        }
        while i < rows.len()
            invariant
                i <= rows.len(),
                all == code_rows(rows@),
                readable ==> codes_of(all.take(i as int)) == Some(cache@),
                !readable ==> codes_of(all.take(i as int)) is None,
            decreases rows.len() - i,
        {
            proof {
                assert(all.take(i + 1).drop_last() =~= all.take(i as int));
                assert(all.take(i + 1).last() == all[i as int]);
            }
            let ghost before = cache@;
            match (read_address(&rows[i].0), read_code(&rows[i].1)) {
                (Some(address), Some(code)) => {
                    let entry = BytecodeCacheEntry { bytecode: Bytes::from_vec(code) };
                    let ghost made = entry.bytecode@;
                    cache.contracts.insert(address, entry);
                    assert(cache@ =~= before.insert(address, made));
                },
                _ => {
                    readable = false;
                },
            }
            i = i + 1;
        }
        assert(all.take(i as int) =~= all);
        if readable {
            Some(cache)
        } else {
            None
        }
    }
}

/// Code that is saved and loaded comes back, all of it and nothing else. The file
/// starts with its kind, `EFCBYTE` and a zero byte, and its version.
pub proof fn law_saved_code_comes_back(
    file: Seq<u8>,
    saved: BytecodeCache,
    loaded: Option<BytecodeCache>,
)
    requires
        is_codes_file(file, saved@),
        match loaded {
            Some(cache) => loaded_codes(Some(file)) == Some(cache@),
            None => loaded_codes(Some(file)) is None,
        },
    ensures
        file.take(8) == seq![0x45u8, 0x46u8, 0x43u8, 0x42u8, 0x59u8, 0x54u8, 0x45u8, 0u8],
        file.subrange(8, 12) == seq![1u8, 0u8, 0u8, 0u8],
        loaded is Some,
        loaded->0@ == saved@,
{
    versioned::law_frame_starts_with_its_kind(
        BYTECODE_CACHE_MAGIC@,
        BYTECODE_CACHE_VERSION,
        codes_payload(listed_codes(saved@)),
    );
    assert(BYTECODE_CACHE_MAGIC@ =~= seq![
        0x45u8,
        0x46u8,
        0x43u8,
        0x42u8,
        0x59u8,
        0x54u8,
        0x45u8,
        0u8,
    ]);
    assert(version_bytes(1) =~= seq![1u8, 0u8, 0u8, 0u8]);
}

} // verus!
