//! Numbers, addresses and bytes as text.

use crate::primitives::{be_bytes, be_value, pow_256, Address, B256, U256};
use vstd::prelude::*;

verus! {

/// The value of a digit in a base of at most 36, letters of either case standing
/// for ten and above.
pub open spec fn digit_value(digit: char, radix: nat) -> Option<nat> {
    let value: int = if '0' <= digit <= '9' {
        digit as int - '0' as int
    } else if 'a' <= digit <= 'z' {
        digit as int - 'a' as int + 10
    } else if 'A' <= digit <= 'Z' {
        digit as int - 'A' as int + 10
    } else {
        radix as int
    };
    if value < radix {
        Some(value as nat)
    } else {
        None
    }
}

/// The number that digits stand for; zero for none.
pub open spec fn numeral(digits: Seq<char>, radix: nat) -> Option<nat>
    decreases digits.len(),
{
    if digits.len() == 0 {
        Some(0)
    } else {
        match (numeral(digits.drop_last(), radix), digit_value(digits.last(), radix)) {
            (Some(high), Some(low)) => Some(high * radix + low),
            _ => None,
        }
    }
}

/// The number below a bound that digits stand for.
pub open spec fn bounded_numeral(digits: Seq<char>, radix: nat, bound: nat) -> Option<nat> {
    match numeral(digits, radix) {
        Some(value) => if value < bound {
            Some(value)
        } else {
            None
        },
        None => None,
    }
}

/// Text without the underscores.
pub open spec fn without_underscores(text: Seq<char>) -> Seq<char> {
    text.filter(|c: char| c != '_')
}

/// Digits with an optional plus sign before them.
pub open spec fn unsigned(text: Seq<char>) -> Option<Seq<char>> {
    let digits = if text.len() > 0 && text[0] == '+' {
        text.skip(1)
    } else {
        text
    };
    if digits.len() > 0 {
        Some(digits)
    } else {
        None
    }
}

/// The bytes that pairs of hexadecimal digits stand for.
pub open spec fn hex_bytes(digits: Seq<char>) -> Option<Seq<u8>> {
    if digits.len() % 2 == 0 && forall|i: int|
        0 <= i < digits.len() ==> (#[trigger] digit_value(digits[i], 16)) is Some {
        Some(
            Seq::new(
                digits.len() / 2,
                |i: int|
                    (16 * digit_value(digits[2 * i], 16)->0 + digit_value(
                        digits[2 * i + 1],
                        16,
                    )->0) as u8,
            ),
        )
    } else {
        None
    }
}

/// Text after the mark of hexadecimal digits, where it stands.
pub open spec fn without_hex_mark(text: Seq<char>) -> Seq<char> {
    if text.len() >= 2 && text[0] == '0' && (text[1] == 'x' || text[1] == 'X') {
        text.skip(2)
    } else {
        text
    }
}

/// A hexadecimal digit in lower case.
pub open spec fn hex_digit(value: nat) -> char {
    if value < 10 {
        ('0' as int + value) as char
    } else {
        ('a' as int + value - 10) as char
    }
}

/// Two hexadecimal digits in lower case for each byte.
pub open spec fn hex_text(bytes: Seq<u8>) -> Seq<char> {
    Seq::new(
        2 * bytes.len(),
        |i: int|
            hex_digit(
                if i % 2 == 0 {
                    (bytes[i / 2] / 16) as nat
                } else {
                    (bytes[i / 2] % 16) as nat
                },
            ),
    )
}

/// The hexadecimal digits of a number in lower case, without leading zeros.
pub open spec fn hex_digits(value: nat) -> Seq<char>
    decreases value,
{
    if value < 16 {
        seq![hex_digit(value)]
    } else {
        hex_digits(value / 16).push(hex_digit(value % 16))
    }
}

/// The mark of hexadecimal digits.
pub open spec fn hex_mark() -> Seq<char> {
    seq!['0', 'x']
}

/// Calls `str::strip_prefix`: the rest of a text that starts with the prefix.
#[verifier::external_body]
pub(crate) fn strip_prefix<'a>(text: &'a str, prefix: &str) -> (r: Option<&'a str>)
    ensures
        match r {
            Some(rest) => text@ == prefix@ + rest@,
            None => !prefix@.is_prefix_of(text@),
        },
{
    text.strip_prefix(prefix)
}

/// Calls `u64::from_str_radix`: digits with an optional plus sign, of a number
/// that fits; anything else is an error.
#[verifier::external_body]
pub(crate) fn parse_u64(text: &str, radix: u32) -> (r: Option<u64>)
    requires
        2 <= radix <= 36,
    ensures
        match r {
            Some(value) => unsigned(text@) is Some && bounded_numeral(
                unsigned(text@)->0,
                radix as nat,
                u64::MAX as nat + 1,
            ) == Some(value as nat),
            None => unsigned(text@) is None || bounded_numeral(
                unsigned(text@)->0,
                radix as nat,
                u64::MAX as nat + 1,
            ) is None,
        },
{
    u64::from_str_radix(text, radix).ok()
}

/// Calls `alloy_primitives::U256::from_str_radix`: digits of a number that fits,
/// underscores left out; anything else is an error.
#[verifier::external_body]
pub(crate) fn parse_u256(text: &str, radix: u64) -> (r: Option<U256>)
    requires
        2 <= radix <= 36,
    ensures
        match r {
            Some(value) => bounded_numeral(without_underscores(text@), radix as nat, pow_256())
                == Some(value@),
            None => bounded_numeral(without_underscores(text@), radix as nat, pow_256()) is None,
        },
{
    match alloy_primitives::U256::from_str_radix(text, radix) {
        Ok(value) => Some(U256::from_be_slice(&value.to_be_bytes::<32>(), 0)),
        Err(_) => None,
    }
}

/// Calls `alloy_primitives::Address::from_str`: forty hexadecimal digits, with or
/// without the mark before them; anything else is an error.
#[verifier::external_body]
pub(crate) fn parse_address(text: &str) -> (r: Option<Address>)
    ensures
        match (r, hex_bytes(without_hex_mark(text@))) {
            (Some(address), Some(bytes)) => bytes.len() == 20 && address@ == be_value(bytes),
            (Some(_), None) => false,
            (None, Some(bytes)) => bytes.len() != 20,
            (None, None) => true,
        },
{
    match text.parse::<alloy_primitives::Address>() {
        Ok(address) => Some(Address::from_slice(address.as_slice(), 0)),
        Err(_) => None,
    }
}

/// Calls `alloy_primitives::hex::decode`: pairs of hexadecimal digits, with or
/// without the mark before them; anything else is an error.
#[verifier::external_body]
pub(crate) fn decode_hex(text: &str) -> (r: Option<Vec<u8>>)
    ensures
        match r {
            Some(bytes) => hex_bytes(without_hex_mark(text@)) == Some(bytes@),
            None => hex_bytes(without_hex_mark(text@)) is None,
        },
{
    alloy_primitives::hex::decode(text).ok()
}

/// Calls `alloy_primitives::hex::encode_prefixed`: the mark, then two
/// hexadecimal digits in lower case for each byte.
#[verifier::external_body]
pub(crate) fn encode_hex(bytes: &[u8]) -> (r: String)
    ensures
        r@ == hex_mark() + hex_text(bytes@),
{
    alloy_primitives::hex::encode_prefixed(bytes)
}

/// A hash as text: the mark, then its digits.
pub(crate) fn encode_hash(hash: B256) -> (r: String)
    ensures
        r@ == hex_mark() + hex_text(be_bytes(hash@, 32)),
{
    encode_hex(hash.to_vec().as_slice())
}

/// Digits are read as the values that they were written for.
pub proof fn lemma_hex_comes_back(bytes: Seq<u8>)
    ensures
        hex_bytes(hex_text(bytes)) == Some(bytes),
        without_hex_mark(hex_text(bytes)) == hex_text(bytes),
{
    let digits = hex_text(bytes);
    assert forall|i: int| 0 <= i < digits.len() implies (#[trigger] digit_value(digits[i], 16))
        is Some && digit_value(digits[i], 16)->0 == if i % 2 == 0 {
        (bytes[i / 2] / 16) as nat
    } else {
        (bytes[i / 2] % 16) as nat
    } by {
        let value = if i % 2 == 0 {
            (bytes[i / 2] / 16) as nat
        } else {
            (bytes[i / 2] % 16) as nat
        };
        assert(value < 16);
        assert(digit_value(hex_digit(value), 16) == Some(value));
    }
    if digits.len() >= 2 {
        assert(digit_value(digits[1], 16) is Some);
    }
    let read = hex_bytes(digits)->0;
    assert forall|i: int| 0 <= i < bytes.len() implies read[i] == bytes[i] by {
        assert(digit_value(digits[2 * i], 16) is Some);
        assert(digit_value(digits[2 * i + 1], 16) is Some);
        assert((2 * i) / 2 == i && (2 * i + 1) / 2 == i);
    }
    assert(read =~= bytes);
}

/// Formats with `LowerHex` and its alternate flag: the mark, then the
/// hexadecimal digits in lower case, without leading zeros.
#[verifier::external_body]
pub(crate) fn encode_quantity(value: u64) -> (r: String)
    ensures
        r@ == hex_mark() + hex_digits(value as nat),
{
    format!("{value:#x}")
}

/// Whether text is made of ASCII characters.
pub open spec fn is_ascii_text(text: Seq<char>) -> bool {
    forall|i: int| 0 <= i < text.len() ==> (#[trigger] text[i]) as int <= 127
}

/// An ASCII character, a letter in lower case.
pub open spec fn ascii_lower(c: char) -> char {
    if 'A' <= c <= 'Z' {
        (c as int + 32) as char
    } else {
        c
    }
}

/// An ASCII character, a letter in upper case.
pub open spec fn ascii_upper(c: char) -> char {
    if 'a' <= c <= 'z' {
        (c as int - 32) as char
    } else {
        c
    }
}

/// Text with its letters in lower case.
pub uninterp spec fn lowercase_of(text: Seq<char>) -> Seq<char>;

/// Calls `str::to_lowercase`. What comes out is a function of the text alone; of
/// ASCII text it is each letter in lower case. Which characters beyond ASCII have
/// a lower case, and which, is left unsaid.
#[verifier::external_body]
pub(crate) fn to_lowercase(text: &str) -> (r: String)
    ensures
        r@ == lowercase_of(text@),
        is_ascii_text(text@) ==> r@ == text@.map_values(|c: char| ascii_lower(c)),
{
    text.to_lowercase()
}

/// Text with its letters in upper case.
pub uninterp spec fn uppercase_of(text: Seq<char>) -> Seq<char>;

/// Calls `str::to_uppercase`. What comes out is a function of the text alone; of
/// ASCII text it is each letter in upper case. Which characters beyond ASCII have
/// an upper case, and which, is left unsaid.
#[verifier::external_body]
pub(crate) fn to_uppercase(text: &str) -> (r: String)
    ensures
        r@ == uppercase_of(text@),
        is_ascii_text(text@) ==> r@ == text@.map_values(|c: char| ascii_upper(c)),
{
    text.to_uppercase()
}

/// Whether two texts differ at most in the case of ASCII letters.
pub open spec fn same_letters(a: Seq<char>, b: Seq<char>) -> bool {
    a.len() == b.len() && forall|i: int|
        0 <= i < a.len() ==> ascii_lower(#[trigger] a[i]) == ascii_lower(b[i])
}

/// ASCII texts differ at most in case exactly where they agree in one case.
pub proof fn lemma_same_letters(a: Seq<char>, b: Seq<char>)
    requires
        is_ascii_text(a),
        is_ascii_text(b),
    ensures
        same_letters(a, b) <==> a.map_values(|c: char| ascii_lower(c)) == b.map_values(
            |c: char| ascii_lower(c),
        ),
        same_letters(a, b) <==> a.map_values(|c: char| ascii_upper(c)) == b.map_values(
            |c: char| ascii_upper(c),
        ),
{
    let lower = |c: char| ascii_lower(c);
    let upper = |c: char| ascii_upper(c);
    if same_letters(a, b) {
        assert(a.map_values(lower) =~= b.map_values(lower));
        assert forall|i: int| 0 <= i < a.len() implies a.map_values(upper)[i] == b.map_values(
            upper,
        )[i] by {
            assert(ascii_lower(a[i]) == ascii_lower(b[i]));
        }
        assert(a.map_values(upper) =~= b.map_values(upper));
    }
    if a.map_values(lower) == b.map_values(lower) {
        assert(a.map_values(lower).len() == b.map_values(lower).len());
        assert forall|i: int| 0 <= i < a.len() implies ascii_lower(#[trigger] a[i]) == ascii_lower(
            b[i],
        ) by {
            assert(a.map_values(lower)[i] == b.map_values(lower)[i]);
        }
    }
    if a.map_values(upper) == b.map_values(upper) {
        assert(a.map_values(upper).len() == b.map_values(upper).len());
        assert forall|i: int| 0 <= i < a.len() implies ascii_lower(#[trigger] a[i]) == ascii_lower(
            b[i],
        ) by {
            assert(a.map_values(upper)[i] == b.map_values(upper)[i]);
            assert(b[i] as int <= 127);
        }
    }
}

} // verus!
