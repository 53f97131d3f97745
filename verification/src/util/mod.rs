//! Helpers for byte encodings: the bytes of a number's hexadecimal form, and
//! fixed-width padding.

pub mod pad;

use std::num::ParseIntError;
use std::string::FromUtf8Error;
use vstd::prelude::*;
use vstd::std_specs::convert::FromSpecImpl;

verus! {

/// `std::num::ParseIntError`, the error of parsing a number. Nothing is
/// known of what it holds.
#[verifier::external_type_specification]
#[verifier::external_body]
pub struct ExParseIntError(std::num::ParseIntError);

/// Why a hexadecimal text could not be turned into bytes.
#[derive(Debug)]
pub enum HexToBytesError {
    /// A pair of characters is not a hexadecimal number.
    ParseError(ParseIntError),
    /// The bytes are not valid UTF-8.
    UTF8Error(FromUtf8Error),
}

impl From<ParseIntError> for HexToBytesError {
    fn from(error: ParseIntError) -> (converted: Self) {
        Self::ParseError(error)
    }
}

impl FromSpecImpl<ParseIntError> for HexToBytesError {
    open spec fn obeys_from_spec() -> bool {
        true
    }

    open spec fn from_spec(error: ParseIntError) -> Self {
        HexToBytesError::ParseError(error)
    }
}

impl From<FromUtf8Error> for HexToBytesError {
    fn from(error: FromUtf8Error) -> (converted: Self) {
        Self::UTF8Error(error)
    }
}

impl FromSpecImpl<FromUtf8Error> for HexToBytesError {
    open spec fn obeys_from_spec() -> bool {
        true
    }

    open spec fn from_spec(error: FromUtf8Error) -> Self {
        HexToBytesError::UTF8Error(error)
    }
}

/// The hexadecimal digits of `n`, most significant first, without leading
/// zeros; zero has the one digit 0.
pub open spec fn hex_digits(n: nat) -> Seq<nat>
    decreases n,
{
    if n < 16 {
        seq![n]
    } else {
        hex_digits(n / 16).push(n % 16)
    }
}

/// `digits` with a zero before them where their number is odd.
pub open spec fn evened(digits: Seq<nat>) -> Seq<nat> {
    if digits.len() % 2 == 1 {
        seq![0nat] + digits
    } else {
        digits
    }
}

/// The bytes that `digits` make, two hexadecimal digits to a byte.
pub open spec fn paired(digits: Seq<nat>) -> Seq<u8> {
    Seq::new(digits.len() / 2, |i: int| (16 * digits[2 * i] + digits[2 * i + 1]) as u8)
}

/// The bytes of the hexadecimal form of `n`: each byte holds the value of
/// one pair of digits, the first pair filled up with a zero where the number
/// of digits is odd.
pub open spec fn hex_bytes(n: nat) -> Seq<u8> {
    paired(evened(hex_digits(n)))
}

/// The digits of `n` to the base 256, most significant first, without
/// leading zeros; zero has the one digit 0.
pub open spec fn base_256(n: nat) -> Seq<u8>
    decreases n,
{
    if n < 256 {
        seq![n as u8]
    } else {
        base_256(n / 256).push((n % 256) as u8)
    }
}

/// Every hexadecimal digit is below 16.
pub proof fn lemma_hex_digits_are_digits(n: nat)
    ensures
        hex_digits(n).len() >= 1,
        forall|i: int| 0 <= i < hex_digits(n).len() ==> #[trigger] hex_digits(n)[i] < 16,
    decreases n,
{
    if n >= 16 {
        lemma_hex_digits_are_digits(n / 16);
    }
}

/// The bytes of the hexadecimal form of a number are its digits to the base
/// 256.
pub proof fn lemma_hex_bytes_are_base_256(n: nat)
    ensures
        hex_bytes(n) == base_256(n),
    decreases n,
{
    if n < 16 {
        assert(evened(hex_digits(n)) == seq![0nat, n]);
        assert(hex_bytes(n) == seq![n as u8]);
    } else if n < 256 {
        assert(hex_digits(n / 16) == seq![n / 16]);
        assert(hex_digits(n) == seq![n / 16, n % 16]);
        assert(hex_bytes(n) == seq![n as u8]);
    } else {
        let high = n / 256;
        let upper = (n / 16) % 16;
        let lower = n % 16;
        lemma_hex_bytes_are_base_256(high);
        lemma_hex_digits_are_digits(high);
        assert((n / 16) / 16 == high);
        assert(16 * upper + lower == n % 256);
        assert(hex_digits(n / 16) == hex_digits(high).push(upper));
        assert(hex_digits(n) == hex_digits(high).push(upper).push(lower));
        let before = evened(hex_digits(high));
        let after = evened(hex_digits(n));
        assert(after == before.push(upper).push(lower));
        assert(paired(after) == paired(before).push((n % 256) as u8));
    }
}

fn push_base_256(n: u128, bytes: &mut Vec<u8>)
    ensures
        final(bytes)@ == old(bytes)@ + base_256(n as nat),
    decreases n,
{
    if n >= 256 {
        push_base_256(n / 256, bytes);
    }
    bytes.push((n % 256) as u8);
}

fn bytes_of(n: u128) -> (bytes: Vec<u8>)
    ensures
        bytes@ == hex_bytes(n as nat),
{
    let mut bytes = Vec::new();
    push_base_256(n, &mut bytes);
    proof {
        lemma_hex_bytes_are_base_256(n as nat);
    }
    bytes
}

/// Turning a number into the bytes of its hexadecimal form.
pub trait HexToBytes {
    /// The number whose hexadecimal form is taken: the value itself, or, of
    /// a negative number, its two's complement in the width of its type.
    spec fn hex_value(&self) -> nat;

    /// The bytes of the hexadecimal form of `self`, one for each pair of
    /// digits.
    fn hex_to_bytes(&self) -> (bytes: Vec<u8>)
        ensures
            bytes@ == hex_bytes(self.hex_value()),
    ;
}

impl HexToBytes for u8 {
    open spec fn hex_value(&self) -> nat {
        *self as nat
    }

    fn hex_to_bytes(&self) -> (bytes: Vec<u8>) {
        bytes_of(*self as u128)
    }
}

impl HexToBytes for u16 {
    open spec fn hex_value(&self) -> nat {
        *self as nat
    }

    fn hex_to_bytes(&self) -> (bytes: Vec<u8>) {
        bytes_of(*self as u128)
    }
}

impl HexToBytes for u32 {
    open spec fn hex_value(&self) -> nat {
        *self as nat
    }

    fn hex_to_bytes(&self) -> (bytes: Vec<u8>) {
        bytes_of(*self as u128)
    }
}

impl HexToBytes for u64 {
    open spec fn hex_value(&self) -> nat {
        *self as nat
    }

    fn hex_to_bytes(&self) -> (bytes: Vec<u8>) {
        bytes_of(*self as u128)
    }
}

impl HexToBytes for usize {
    open spec fn hex_value(&self) -> nat {
        *self as nat
    }

    fn hex_to_bytes(&self) -> (bytes: Vec<u8>) {
        bytes_of(*self as u128)
    }
}

impl HexToBytes for u128 {
    open spec fn hex_value(&self) -> nat {
        *self as nat
    }

    fn hex_to_bytes(&self) -> (bytes: Vec<u8>) {
        bytes_of(*self)
    }
}

impl HexToBytes for i8 {
    open spec fn hex_value(&self) -> nat {
        if *self >= 0 {
            *self as nat
        } else {
            (*self + 0x100) as nat
        }
    }

    fn hex_to_bytes(&self) -> (bytes: Vec<u8>) {
        if *self >= 0 {
            bytes_of(*self as u128)
        } else {
            bytes_of((*self as i128 + 0x100) as u128)
        }
    }
}

impl HexToBytes for i16 {
    open spec fn hex_value(&self) -> nat {
        if *self >= 0 {
            *self as nat
        } else {
            (*self + 0x1_0000) as nat
        }
    }

    fn hex_to_bytes(&self) -> (bytes: Vec<u8>) {
        if *self >= 0 {
            bytes_of(*self as u128)
        } else {
            bytes_of((*self as i128 + 0x1_0000) as u128)
        }
    }
}

impl HexToBytes for i32 {
    open spec fn hex_value(&self) -> nat {
        if *self >= 0 {
            *self as nat
        } else {
            (*self + 0x1_0000_0000) as nat
        }
    }

    fn hex_to_bytes(&self) -> (bytes: Vec<u8>) {
        if *self >= 0 {
            bytes_of(*self as u128)
        } else {
            bytes_of((*self as i128 + 0x1_0000_0000) as u128)
        }
    }
}

impl HexToBytes for i64 {
    open spec fn hex_value(&self) -> nat {
        if *self >= 0 {
            *self as nat
        } else {
            (*self + 0x1_0000_0000_0000_0000) as nat
        }
    }

    fn hex_to_bytes(&self) -> (bytes: Vec<u8>) {
        if *self >= 0 {
            bytes_of(*self as u128)
        } else {
            bytes_of((*self as i128 + 0x1_0000_0000_0000_0000) as u128)
        }
    }
}

impl HexToBytes for isize {
    open spec fn hex_value(&self) -> nat {
        if *self >= 0 {
            *self as nat
        } else {
            (*self + usize::MAX + 1) as nat
        }
    }

    fn hex_to_bytes(&self) -> (bytes: Vec<u8>) {
        if *self >= 0 {
            bytes_of(*self as u128)
        } else {
            bytes_of((*self as i128 + usize::MAX as i128 + 1) as u128)
        }
    }
}

impl HexToBytes for i128 {
    open spec fn hex_value(&self) -> nat {
        if *self >= 0 {
            *self as nat
        } else {
            (*self + u128::MAX + 1) as nat
        }
    }

    fn hex_to_bytes(&self) -> (bytes: Vec<u8>) {
        if *self >= 0 {
            bytes_of(*self as u128)
        } else {
            bytes_of(u128::MAX - (-(*self + 1)) as u128)
        }
    }
}

} // verus!
