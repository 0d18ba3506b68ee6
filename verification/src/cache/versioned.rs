//! Versioned frames around persisted payloads.
//!
//! A frame is eight bytes that name the kind of file, a version in four bytes,
//! lowest first, and the payload.

use vstd::prelude::*;

verus! {

/// The number of bytes before the payload.
pub const HEADER_BYTES: usize = 12;

/// The bytes of a version, lowest first.
pub open spec fn version_bytes(version: u32) -> Seq<u8> {
    seq![
        (version % 256) as u8,
        (version / 256 % 256) as u8,
        (version / 65536 % 256) as u8,
        (version / 16777216) as u8,
    ]
}

/// The frame around a payload.
pub open spec fn frame(magic: Seq<u8>, version: u32, payload: Seq<u8>) -> Seq<u8> {
    magic + version_bytes(version) + payload
}

/// What a frame of this kind and version holds, if `data` is one.
pub open spec fn unframed(data: Seq<u8>, magic: Seq<u8>, version: u32) -> Option<Seq<u8>> {
    if data.len() >= HEADER_BYTES && data.take(8) == magic && data.subrange(8, 12) == version_bytes(
        version,
    ) {
        Some(data.skip(HEADER_BYTES as int))
    } else {
        None
    }
}

/// A version as its four bytes, lowest first.
fn write_version(out: &mut Vec<u8>, version: u32)
    ensures
        final(out)@ == old(out)@ + version_bytes(version),
{
    out.push((version % 256) as u8);
    out.push((version / 256 % 256) as u8);
    out.push((version / 65536 % 256) as u8);
    out.push((version / 16777216) as u8);
    assert(out@ =~= old(out)@ + version_bytes(version));
}

/// Frames a payload.
pub fn encode(magic: &[u8; 8], version: u32, payload: &[u8]) -> (r: Vec<u8>)
    ensures
        r@ == frame(magic@, version, payload@),
        r@.len() == HEADER_BYTES + payload@.len(),
{
    let mut out: Vec<u8> = Vec::new();
    let mut i: usize = 0;
    while i < 8
        invariant
            i <= 8,
            magic@.len() == 8,
            out@ == magic@.take(i as int),
        decreases 8 - i,
    {
        out.push(magic[i]);
        assert(out@ =~= magic@.take(i as int + 1));
        i = i + 1;
    }
    assert(out@ =~= magic@);
    write_version(&mut out, version);
    out.extend_from_slice(payload);
    assert(out@ =~= frame(magic@, version, payload@));
    out
}

/// Takes the payload out of a frame of this kind and version; anything else has
/// none.
pub fn decode(data: &[u8], magic: &[u8; 8], version: u32) -> (r: Option<Vec<u8>>)
    ensures
        match unframed(data@, magic@, version) {
            Some(payload) => r matches Some(bytes) && bytes@ == payload,
            None => r is None,
        },
{
    if data.len() < HEADER_BYTES {
        return None;
    }
    let empty: [u8; 0] = [];
    let head: Vec<u8> = encode(magic, version, &empty);
    let ghost expected = magic@ + version_bytes(version);
    assert(head@ =~= expected);
    let mut i: usize = 0;
    while i < HEADER_BYTES
        invariant
            i <= HEADER_BYTES <= data@.len(),
            HEADER_BYTES == 12,
            head@.len() == 12,
            magic@.len() == 8,
            head@ == magic@ + version_bytes(version),
            forall|j: int| 0 <= j < i ==> data@[j] == #[trigger] head@[j],
        decreases HEADER_BYTES - i,
    {
        if data[i] != head[i] {
            proof {
                if i < 8 {
                    assert(data@.take(8)[i as int] != magic@[i as int]);
                } else {
                    assert(data@.subrange(8, 12)[i - 8] != version_bytes(version)[i - 8]);
                }
            }
            return None;
        }
        i = i + 1;
    }
    proof {
        assert forall|j: int| 0 <= j < 8 implies data@.take(8)[j] == magic@[j] by {
            assert(data@[j] == head@[j]);
        }
        assert(data@.take(8) =~= magic@);
        assert forall|j: int| 0 <= j < 4 implies data@.subrange(8, 12)[j] == version_bytes(
            version,
        )[j] by {
            assert(data@[j + 8] == head@[j + 8]);
        }
        assert(data@.subrange(8, 12) =~= version_bytes(version));
    }
    let mut payload: Vec<u8> = Vec::new();
    let mut k: usize = HEADER_BYTES;
    while k < data.len()
        invariant
            HEADER_BYTES == 12,
            12 <= k <= data@.len(),
            payload@ == data@.subrange(12, k as int),
        decreases data@.len() - k,
    {
        payload.push(data[k]);
        assert(payload@ =~= data@.subrange(12, k as int + 1));
        k = k + 1;
    }
    assert(payload@ =~= data@.skip(12));
    Some(payload)
}

/// The bytes of a file, if there is one.
pub open spec fn contents(data: Option<&[u8]>) -> Option<Seq<u8>> {
    match data {
        Some(bytes) => Some(bytes@),
        None => None,
    }
}

/// Whether a file of this kind and version, whose payload `decode` reads, can
/// come out as `out`: nothing comes of a file that is not there or of another
/// kind or version.
pub open spec fn is_loaded<M, D>(
    data: Option<Seq<u8>>,
    magic: Seq<u8>,
    version: u32,
    decode: D,
    out: Option<M>,
) -> bool where D: FnOnce(Vec<u8>) -> Option<M> {
    match data {
        Some(bytes) => match unframed(bytes, magic, version) {
            Some(payload) => exists|taken: Vec<u8>|
                taken@ == payload && #[trigger] call_ensures(decode, (taken,), out),
            None => out is None,
        },
        None => out is None,
    }
}

/// Reads a file of this kind and version, whose payload `decode` reads.
pub fn load<M, D>(data: Option<&[u8]>, magic: &[u8; 8], version: u32, decode: D) -> (out: Option<
    M,
>) where D: FnOnce(Vec<u8>) -> Option<M>
    requires
        forall|taken: Vec<u8>| call_requires(decode, (taken,)),
    ensures
        is_loaded(contents(data), magic@, version, decode, out),
{
    match data {
        Some(bytes) => match self::decode(bytes, magic, version) {
            Some(payload) => decode(payload),
            None => None,
        },
        None => None,
    }
}

/// A frame starts with its kind and its version, lowest byte first.
pub proof fn law_frame_starts_with_its_kind(magic: Seq<u8>, version: u32, payload: Seq<u8>)
    requires
        magic.len() == 8,
    ensures
        frame(magic, version, payload).take(8) == magic,
        frame(magic, version, payload).subrange(8, 12) == version_bytes(version),
{
    let data = frame(magic, version, payload);
    assert(data.take(8) =~= magic);
    assert(data.subrange(8, 12) =~= version_bytes(version));
}

/// A frame gives back its payload.
pub proof fn law_frame_round_trip(magic: Seq<u8>, version: u32, payload: Seq<u8>)
    requires
        magic.len() == 8,
    ensures
        unframed(frame(magic, version, payload), magic, version) == Some(payload),
{
    let data = frame(magic, version, payload);
    assert(data.take(8) =~= magic);
    assert(data.subrange(8, 12) =~= version_bytes(version));
    assert(data.skip(12) =~= payload);
}

/// A frame of another kind or version gives nothing back.
pub proof fn law_frame_guards(
    magic: Seq<u8>,
    version: u32,
    payload: Seq<u8>,
    other_magic: Seq<u8>,
    other_version: u32,
)
    requires
        magic.len() == 8,
        magic != other_magic || version != other_version,
    ensures
        unframed(frame(magic, version, payload), other_magic, other_version) is None,
{
    let data = frame(magic, version, payload);
    assert(data.take(8) =~= magic);
    assert(data.subrange(8, 12) =~= version_bytes(version));
    if magic == other_magic {
        let a = version_bytes(version);
        let b = version_bytes(other_version);
        if a == b {
            assert(a[0] == b[0] && a[1] == b[1] && a[2] == b[2] && a[3] == b[3]);
            assert(version % 256 == other_version % 256);
            assert(version / 256 % 256 == other_version / 256 % 256);
            assert(version / 65536 % 256 == other_version / 65536 % 256);
            assert(version / 16777216 == other_version / 16777216);
            assert(false);
        }
    }
}

} // verus!
