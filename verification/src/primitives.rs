//! Fixed-width chain values: addresses, hashes and 256-bit words.
//!
//! Each value is held as big-endian limbs, so that equality is equality of
//! fields and order is the order of the numbers.

use crate::collections::Key;
use vstd::prelude::*;

verus! {

/// Two to the power of 128.
#[verifier::inline]
pub open spec fn pow_128() -> nat {
    0x1_0000_0000_0000_0000_0000_0000_0000_0000nat
}

/// Two to the power of 256.
#[verifier::inline]
pub open spec fn pow_256() -> nat {
    0x1_0000_0000_0000_0000_0000_0000_0000_0000_0000_0000_0000_0000_0000_0000_0000_0000nat
}

/// `256` to the power of `n`.
pub open spec fn byte_base(n: nat) -> nat
    decreases n,
{
    if n == 0 {
        1
    } else {
        256 * byte_base((n - 1) as nat)
    }
}

/// The number that `bytes` spells, most significant byte first.
pub open spec fn be_value(bytes: Seq<u8>) -> nat
    decreases bytes.len(),
{
    if bytes.len() == 0 {
        0
    } else {
        be_value(bytes.drop_last()) * 256 + bytes.last() as nat
    }
}

/// The low `n` bytes of `value`, most significant byte first.
pub open spec fn be_bytes(value: nat, n: nat) -> Seq<u8>
    decreases n,
{
    if n == 0 {
        Seq::empty()
    } else {
        be_bytes(value / 256, (n - 1) as nat).push((value % 256) as u8)
    }
}

/// A byte string of length `n` spells a number below `256` to the `n`.
pub proof fn lemma_be_value_bound(bytes: Seq<u8>)
    ensures
        be_value(bytes) < byte_base(bytes.len()),
    decreases bytes.len(),
{
    if bytes.len() > 0 {
        lemma_be_value_bound(bytes.drop_last());
    }
}

/// Splitting a byte string splits its number.
pub proof fn lemma_be_value_concat(high: Seq<u8>, low: Seq<u8>)
    ensures
        be_value(high + low) == be_value(high) * byte_base(low.len()) + be_value(low),
    decreases low.len(),
{
    if low.len() == 0 {
        assert(high + low =~= high);
        assert(byte_base(low.len()) == 1);
        assert(be_value(high) * 1 == be_value(high)) by (nonlinear_arith);
    } else {
        assert((high + low).drop_last() =~= high + low.drop_last());
        lemma_be_value_concat(high, low.drop_last());
        let base: nat = byte_base((low.len() - 1) as nat);
        let value: nat = be_value(high);
        assert((high + low).last() == low.last());
        assert(byte_base(low.len()) == 256 * base);
        assert((value * base) * 256 == value * (256 * base)) by (nonlinear_arith);
    }
}

/// Writing a number that fits into `n` bytes and reading it back gives it again.
pub proof fn lemma_be_bytes_round_trip(value: nat, n: nat)
    requires
        value < byte_base(n),
    ensures
        be_bytes(value, n).len() == n,
        be_value(be_bytes(value, n)) == value,
    decreases n,
{
    if n > 0 {
        lemma_be_bytes_round_trip(value / 256, (n - 1) as nat);
        let tail: Seq<u8> = be_bytes(value / 256, (n - 1) as nat);
        assert(be_bytes(value, n).drop_last() =~= tail);
    }
}

/// Reading a byte string and writing the number at the same width gives the
/// byte string again.
pub proof fn lemma_be_value_round_trip(bytes: Seq<u8>)
    ensures
        be_bytes(be_value(bytes), bytes.len()) == bytes,
    decreases bytes.len(),
{
    if bytes.len() > 0 {
        lemma_be_value_round_trip(bytes.drop_last());
        assert(be_value(bytes) / 256 == be_value(bytes.drop_last()));
        assert(be_value(bytes) % 256 == bytes.last() as nat);
        assert(bytes.drop_last().push(bytes.last()) =~= bytes);
    } else {
        assert(bytes =~= Seq::<u8>::empty());
    }
}

/// Writing a number of two parts writes the parts one after the other.
pub proof fn lemma_be_bytes_concat(high: nat, low: nat, n: nat, m: nat)
    requires
        low < byte_base(m),
    ensures
        be_bytes(high * byte_base(m) + low, n + m) == be_bytes(high, n) + be_bytes(low, m),
    decreases m,
{
    if m == 0 {
        assert(be_bytes(high, n) + be_bytes(low, m) =~= be_bytes(high, n));
    } else {
        let base: nat = byte_base((m - 1) as nat);
        assert(high * (256 * base) == 256 * (high * base)) by (nonlinear_arith);
        assert((high * byte_base(m) + low) / 256 == high * base + low / 256);
        assert((high * byte_base(m) + low) % 256 == low % 256);
        lemma_be_bytes_concat(high, low / 256, n, (m - 1) as nat);
        assert(be_bytes(high, n) + be_bytes(low, m) =~= (be_bytes(high, n) + be_bytes(
            low / 256,
            (m - 1) as nat,
        )).push((low % 256) as u8));
    }
}

/// The bases of the widths that the chain values use.
pub proof fn lemma_byte_base_values()
    ensures
        byte_base(4) == 0x1_0000_0000,
        byte_base(8) == 0x1_0000_0000_0000_0000,
        byte_base(16) == pow_128(),
        byte_base(32) == pow_256(),
{
    reveal_with_fuel(byte_base, 33);
}

/// Reads up to sixteen bytes, most significant first.
fn read_be(bytes: &[u8], from: usize, to: usize) -> (value: u128)
    requires
        from <= to <= bytes@.len(),
        to - from <= 16,
    ensures
        value as nat == be_value(bytes@.subrange(from as int, to as int)),
{
    let mut value: u128 = 0;
    let mut i: usize = from;
    while i < to
        invariant
            from <= i <= to <= bytes@.len(),
            to - from <= 16,
            value as nat == be_value(bytes@.subrange(from as int, i as int)),
        decreases to - i,
    {
        proof {
            let prefix = bytes@.subrange(from as int, i as int);
            assert(bytes@.subrange(from as int, i as int + 1).drop_last() =~= prefix);
            lemma_be_value_bound(bytes@.subrange(from as int, i as int + 1));
            lemma_byte_base_monotone((i + 1 - from) as nat, 16);
            lemma_byte_base_values();
        }
        value = value * 256 + bytes[i] as u128;
        i = i + 1;
    }
    value
}

/// A wider byte string has the larger base.
pub proof fn lemma_byte_base_monotone(n: nat, m: nat)
    requires
        n <= m,
    ensures
        byte_base(n) <= byte_base(m),
    decreases m,
{
    if n < m {
        lemma_byte_base_monotone(n, (m - 1) as nat);
    }
}

/// Appends the low `n` bytes of `value`, most significant first.
fn write_be(out: &mut Vec<u8>, value: u128, n: usize)
    requires
        n <= 16,
    ensures
        final(out)@ == old(out)@ + be_bytes(value as nat, n as nat),
    decreases n,
{
    if n > 0 {
        write_be(out, value / 256, n - 1);
        out.push((value % 256) as u8);
        assert(out@ =~= old(out)@ + be_bytes(value as nat, n as nat));
    } else {
        assert(out@ =~= old(out)@ + be_bytes(value as nat, n as nat));
    }
}

/// Numbers of two limbs are ordered by the high limb, then by the low one.
proof fn lemma_limb_order(hi: nat, lo: nat, other_hi: nat, other_lo: nat)
    requires
        lo < pow_128(),
        other_lo < pow_128(),
    ensures
        hi * pow_128() + lo < other_hi * pow_128() + other_lo <==> hi < other_hi || (hi == other_hi
            && lo < other_lo),
{
    if hi < other_hi {
        assert(hi + 1 <= other_hi);
    } else if hi > other_hi {
        assert(other_hi + 1 <= hi);
    }
}

/// A 20-byte account address.
#[derive(Clone, Copy, Debug, PartialEq, Eq, PartialOrd, Ord, Hash, Structural)]
pub struct Address {
    /// The first four bytes.
    pub hi: u32,
    /// The last sixteen bytes.
    pub lo: u128,
}

/// A 32-byte hash.
#[derive(Clone, Copy, Debug, PartialEq, Eq, PartialOrd, Ord, Hash, Structural)]
pub struct B256 {
    /// The first sixteen bytes.
    pub hi: u128,
    /// The last sixteen bytes.
    pub lo: u128,
}

/// An unsigned 256-bit word.
#[derive(Clone, Copy, Debug, PartialEq, Eq, PartialOrd, Ord, Hash, Structural)]
pub struct U256 {
    /// The high half.
    pub hi: u128,
    /// The low half.
    pub lo: u128,
}

/// One storage slot of one contract.
#[derive(Clone, Copy, Debug, PartialEq, Eq, PartialOrd, Ord, Hash, Structural)]
pub struct SlotKey {
    /// The contract.
    pub address: Address,
    /// The slot within the contract's storage.
    pub slot: U256,
}

impl View for Address {
    type V = nat;

    open spec fn view(&self) -> nat {
        self.hi as nat * pow_128() + self.lo as nat
    }
}

impl View for B256 {
    type V = nat;

    open spec fn view(&self) -> nat {
        self.hi as nat * pow_128() + self.lo as nat
    }
}

impl View for U256 {
    type V = nat;

    open spec fn view(&self) -> nat {
        self.hi as nat * pow_128() + self.lo as nat
    }
}

impl Key for Address {
    open spec fn rank(self) -> int {
        self@ as int
    }

    proof fn rank_injective(a: Self, b: Self) {
    }

    fn precedes(&self, other: &Self) -> (r: bool) {
        proof {
            lemma_limb_order(self.hi as nat, self.lo as nat, other.hi as nat, other.lo as nat);
        }
        self.hi < other.hi || (self.hi == other.hi && self.lo < other.lo)
    }
}

impl Key for B256 {
    open spec fn rank(self) -> int {
        self@ as int
    }

    proof fn rank_injective(a: Self, b: Self) {
    }

    fn precedes(&self, other: &Self) -> (r: bool) {
        proof {
            lemma_limb_order(self.hi as nat, self.lo as nat, other.hi as nat, other.lo as nat);
        }
        self.hi < other.hi || (self.hi == other.hi && self.lo < other.lo)
    }
}

impl Key for U256 {
    open spec fn rank(self) -> int {
        self@ as int
    }

    proof fn rank_injective(a: Self, b: Self) {
    }

    fn precedes(&self, other: &Self) -> (r: bool) {
        proof {
            assert(self.rank() == self@ as int);
            assert(other.rank() == other@ as int);
            assert(self@ == self.hi as nat * pow_128() + self.lo as nat);
            lemma_limb_order(self.hi as nat, self.lo as nat, other.hi as nat, other.lo as nat);
        }
        self.hi < other.hi || (self.hi == other.hi && self.lo < other.lo)
    }
}

impl Key for u64 {
    open spec fn rank(self) -> int {
        self as int
    }

    proof fn rank_injective(a: Self, b: Self) {
    }

    fn precedes(&self, other: &Self) -> (r: bool) {
        *self < *other
    }
}

impl Key for SlotKey {
    open spec fn rank(self) -> int {
        (self.address@ * pow_256() + self.slot@) as int
    }

    proof fn rank_injective(a: Self, b: Self) {
        U256::lemma_bound(a.slot);
        U256::lemma_bound(b.slot);
    }

    fn precedes(&self, other: &Self) -> (r: bool) {
        proof {
            U256::lemma_bound(self.slot);
            U256::lemma_bound(other.slot);
        }
        self.address.precedes(&other.address) || (self.address == other.address
            && self.slot.precedes(&other.slot))
    }
}

impl Address {
    /// The address whose bytes are all zero.
    pub fn zero() -> (r: Self)
        ensures
            r@ == 0,
    {
        Address { hi: 0, lo: 0 }
    }

    /// The address that repeats one byte.
    pub fn repeat_byte(byte: u8) -> (r: Self)
        ensures
            r@ == be_value(Seq::new(20, |i: int| byte)),
    {
        let bytes: [u8; 20] = [byte; 20];
        assert(bytes@ =~= Seq::new(20, |i: int| byte));
        Self::from_bytes(&bytes)
    }

    /// Reads an address from its twenty bytes.
    pub fn from_bytes(bytes: &[u8; 20]) -> (r: Self)
        ensures
            r@ == be_value(bytes@),
    {
        assert(bytes@.subrange(0, 20) =~= bytes@);
        Self::from_slice(bytes.as_slice(), 0)
    }

    /// Reads an address from the twenty bytes of `bytes` that start at `from`.
    pub fn from_slice(bytes: &[u8], from: usize) -> (r: Self)
        requires
            from + 20 <= bytes@.len(),
        ensures
            r@ == be_value(bytes@.subrange(from as int, from as int + 20)),
    {
        let len: usize = bytes.len();
        assert(from + 20 <= len);
        let hi: u128 = read_be(bytes, from, from + 4);
        let lo: u128 = read_be(bytes, from + 4, from + 20);
        proof {
            let first = bytes@.subrange(from as int, from as int + 4);
            let rest = bytes@.subrange(from as int + 4, from as int + 20);
            lemma_be_value_bound(first);
            lemma_byte_base_values();
            lemma_be_value_concat(first, rest);
            assert(first + rest =~= bytes@.subrange(from as int, from as int + 20));
        }
        Address { hi: hi as u32, lo }
    }

    /// Appends the twenty bytes of the address.
    pub fn append_to(&self, out: &mut Vec<u8>)
        ensures
            final(out)@ == old(out)@ + be_bytes(self@, 20),
    {
        write_be(out, self.hi as u128, 4);
        write_be(out, self.lo, 16);
        proof {
            lemma_byte_base_values();
            lemma_be_bytes_concat(self.hi as nat, self.lo as nat, 4, 16);
            assert(out@ =~= old(out)@ + be_bytes(self@, 20));
        }
    }

    /// The word with the address in its low bytes.
    pub fn into_word(&self) -> (r: U256)
        ensures
            r@ == self@,
    {
        U256 { hi: self.hi as u128, lo: self.lo }
    }

    /// The twenty bytes of the address.
    pub fn to_vec(&self) -> (out: Vec<u8>)
        ensures
            out@ == be_bytes(self@, 20),
    {
        let mut out: Vec<u8> = Vec::new();
        self.append_to(&mut out);
        assert(out@ =~= be_bytes(self@, 20));
        out
    }

    /// The address of a number below two to the 160.
    pub open spec fn spec_from(value: nat) -> Self {
        Address { hi: (value / pow_128()) as u32, lo: (value % pow_128()) as u128 }
    }

    /// An address is the address of its number.
    pub proof fn lemma_spec_from(address: Self)
        ensures
            Self::spec_from(address@) == address,
    {
    }

    /// Addresses with the same number are the same.
    pub proof fn lemma_injective(a: Self, b: Self)
        requires
            a@ == b@,
        ensures
            a == b,
    {
    }
}

impl B256 {
    /// The hash of a number below two to the 256.
    pub open spec fn spec_from(value: nat) -> Self {
        B256 { hi: (value / pow_128()) as u128, lo: (value % pow_128()) as u128 }
    }

    /// A hash is the hash of its number.
    pub proof fn lemma_spec_from(hash: Self)
        ensures
            Self::spec_from(hash@) == hash,
    {
    }

    /// The hash whose bytes are all zero.
    pub fn zero() -> (r: Self)
        ensures
            r@ == 0,
    {
        B256 { hi: 0, lo: 0 }
    }

    /// The hash that repeats one byte.
    pub fn repeat_byte(byte: u8) -> (r: Self)
        ensures
            r@ == be_value(Seq::new(32, |i: int| byte)),
    {
        let bytes: [u8; 32] = [byte; 32];
        assert(bytes@.subrange(0, 32) =~= Seq::new(32, |i: int| byte));
        Self::from_slice(bytes.as_slice(), 0)
    }

    /// Reads a hash from the 32 bytes of `bytes` that start at `from`.
    pub fn from_slice(bytes: &[u8], from: usize) -> (r: Self)
        requires
            from + 32 <= bytes@.len(),
        ensures
            r@ == be_value(bytes@.subrange(from as int, from as int + 32)),
    {
        let word: U256 = U256::from_be_slice(bytes, from);
        B256 { hi: word.hi, lo: word.lo }
    }

    /// Appends the 32 bytes of the hash.
    pub fn append_to(&self, out: &mut Vec<u8>)
        ensures
            final(out)@ == old(out)@ + be_bytes(self@, 32),
    {
        self.to_word().append_to(out);
    }

    /// The 32 bytes of the hash.
    pub fn to_vec(&self) -> (out: Vec<u8>)
        ensures
            out@ == be_bytes(self@, 32),
    {
        let mut out: Vec<u8> = Vec::new();
        self.append_to(&mut out);
        assert(out@ =~= be_bytes(self@, 32));
        out
    }

    /// The word with the same bytes.
    pub fn to_word(&self) -> (r: U256)
        ensures
            r@ == self@,
    {
        U256 { hi: self.hi, lo: self.lo }
    }

    /// Hashes with the same number are the same.
    pub proof fn lemma_injective(a: Self, b: Self)
        requires
            a@ == b@,
        ensures
            a == b,
    {
    }
}

impl U256 {
    /// The word of a number below two to the 256.
    pub open spec fn spec_from(value: nat) -> Self {
        U256 { hi: (value / pow_128()) as u128, lo: (value % pow_128()) as u128 }
    }

    /// A word is the word of its number.
    pub proof fn lemma_spec_from(word: Self)
        ensures
            Self::spec_from(word@) == word,
    {
    }

    /// The number zero, as specifications name it.
    pub open spec fn spec_zero() -> Self {
        U256 { hi: 0, lo: 0 }
    }

    /// The number zero.
    #[verifier::when_used_as_spec(spec_zero)]
    pub fn zero() -> (r: Self)
        ensures
            r == Self::spec_zero(),
            r@ == 0,
    {
        U256 { hi: 0, lo: 0 }
    }

    /// The largest word.
    pub fn max_value() -> (r: Self)
        ensures
            r@ == pow_256() - 1,
    {
        U256 { hi: u128::MAX, lo: u128::MAX }
    }

    /// The word with the value of a machine integer.
    pub fn from_u64(value: u64) -> (r: Self)
        ensures
            r@ == value,
    {
        U256 { hi: 0, lo: value as u128 }
    }

    /// The word with the value of a 128-bit integer.
    pub fn from_u128(value: u128) -> (r: Self)
        ensures
            r@ == value,
    {
        U256 { hi: 0, lo: value }
    }

    /// Whether the word is zero.
    pub fn is_zero(&self) -> (r: bool)
        ensures
            r == (self@ == 0),
            r == (*self == Self::spec_zero()),
    {
        self.hi == 0 && self.lo == 0
    }

    /// The value, capped at the largest `u64`.
    pub fn saturating_to_u64(&self) -> (r: u64)
        ensures
            r == if self@ <= u64::MAX {
                self@
            } else {
                u64::MAX as nat
            },
    {
        if self.hi == 0 && self.lo <= u64::MAX as u128 {
            self.lo as u64
        } else {
            u64::MAX
        }
    }

    /// The sum, capped at the largest word.
    pub fn saturating_add(&self, other: Self) -> (r: Self)
        ensures
            r@ == if self@ + other@ < pow_256() {
                self@ + other@
            } else {
                (pow_256() - 1) as nat
            },
    {
        let carry: bool = self.lo > u128::MAX - other.lo;
        let lo: u128 = self.lo.wrapping_add(other.lo);
        if self.hi > u128::MAX - other.hi {
            return U256::max_value();
        }
        let hi: u128 = self.hi + other.hi;
        if !carry {
            return U256 { hi, lo };
        }
        if hi == u128::MAX {
            return U256::max_value();
        }
        U256 { hi: hi + 1, lo }
    }

    /// The difference, or zero where it would be negative.
    pub fn saturating_sub(&self, other: Self) -> (r: Self)
        ensures
            r@ == if self@ >= other@ {
                (self@ - other@) as nat
            } else {
                0
            },
    {
        if self.precedes(&other) {
            return U256 { hi: 0, lo: 0 };
        }
        if self.lo >= other.lo {
            U256 { hi: self.hi - other.hi, lo: self.lo - other.lo }
        } else {
            U256 { hi: self.hi - other.hi - 1, lo: self.lo.wrapping_sub(other.lo) }
        }
    }

    /// The difference modulo the word size, as specifications name it.
    pub open spec fn spec_wrapping_sub(self, other: Self) -> Self {
        Self::spec_from(
            if self@ >= other@ {
                (self@ - other@) as nat
            } else {
                (self@ + pow_256() - other@) as nat
            },
        )
    }

    /// The difference modulo the word size.
    pub fn wrapping_sub(&self, other: Self) -> (r: Self)
        ensures
            r == self.spec_wrapping_sub(other),
            r@ == if self@ >= other@ {
                (self@ - other@) as nat
            } else {
                (self@ + pow_256() - other@) as nat
            },
    {
        let r = if self.lo >= other.lo {
            U256 { hi: self.hi.wrapping_sub(other.hi), lo: self.lo - other.lo }
        } else {
            U256 {
                hi: self.hi.wrapping_sub(other.hi).wrapping_sub(1),
                lo: self.lo.wrapping_sub(other.lo),
            }
        };
        proof {
            Self::lemma_spec_from(r);
        }
        r
    }

    /// What [`masked`](Self::masked) computes: `value` under `mask`, `self`
    /// elsewhere.
    pub open spec fn spec_masked(self, mask: Self, value: Self) -> Self {
        U256 {
            hi: (self.hi & !mask.hi) | (value.hi & mask.hi),
            lo: (self.lo & !mask.lo) | (value.lo & mask.lo),
        }
    }

    /// Overwrites the bits that `mask` selects with those of `value`.
    pub fn masked(&self, mask: Self, value: Self) -> (r: Self)
        ensures
            r == self.spec_masked(mask, value),
    {
        U256 {
            hi: (self.hi & !mask.hi) | (value.hi & mask.hi),
            lo: (self.lo & !mask.lo) | (value.lo & mask.lo),
        }
    }

    /// Reads a word from the 32 bytes of `bytes` that start at `from`.
    pub fn from_be_slice(bytes: &[u8], from: usize) -> (r: Self)
        requires
            from + 32 <= bytes@.len(),
        ensures
            r@ == be_value(bytes@.subrange(from as int, from as int + 32)),
    {
        let len: usize = bytes.len();
        assert(from + 32 <= len);
        let hi: u128 = read_be(bytes, from, from + 16);
        let lo: u128 = read_be(bytes, from + 16, from + 32);
        proof {
            let first = bytes@.subrange(from as int, from as int + 16);
            let rest = bytes@.subrange(from as int + 16, from as int + 32);
            lemma_byte_base_values();
            lemma_be_value_concat(first, rest);
            assert(first + rest =~= bytes@.subrange(from as int, from as int + 32));
        }
        U256 { hi, lo }
    }

    /// Appends the 32 bytes of the word.
    pub fn append_to(&self, out: &mut Vec<u8>)
        ensures
            final(out)@ == old(out)@ + be_bytes(self@, 32),
    {
        write_be(out, self.hi, 16);
        write_be(out, self.lo, 16);
        proof {
            lemma_byte_base_values();
            lemma_be_bytes_concat(self.hi as nat, self.lo as nat, 16, 16);
            assert(out@ =~= old(out)@ + be_bytes(self@, 32));
        }
    }

    /// Every word is below two to the 256.
    pub proof fn lemma_bound(word: Self)
        ensures
            word@ < pow_256(),
    {
    }

    /// Words with the same number are the same.
    pub proof fn lemma_injective(a: Self, b: Self)
        requires
            a@ == b@,
        ensures
            a == b,
    {
    }
}

} // verus!
