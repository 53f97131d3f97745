//! Padding or cutting a byte sequence to a fixed width.

use vstd::prelude::*;

verus! {

/// `count` zero bytes.
pub open spec fn zeros(count: nat) -> Seq<u8> {
    Seq::new(count, |i: int| 0u8)
}

/// `bytes` brought to `width` bytes on the left: zeros are put before a
/// shorter sequence, and a longer one loses its first bytes.
pub open spec fn left_padded(bytes: Seq<u8>, width: nat) -> Seq<u8> {
    if bytes.len() <= width {
        zeros((width - bytes.len()) as nat) + bytes
    } else {
        bytes.skip(bytes.len() - width)
    }
}

/// `bytes` brought to `width` bytes on the right: zeros are put after a
/// shorter sequence, and a longer one loses its last bytes.
pub open spec fn right_padded(bytes: Seq<u8>, width: nat) -> Seq<u8> {
    if bytes.len() <= width {
        bytes + zeros((width - bytes.len()) as nat)
    } else {
        bytes.take(width as int)
    }
}

fn left_pad<const FINAL: usize>(bytes: &[u8]) -> (padded: [u8; FINAL])
    ensures
        padded@ == left_padded(bytes@, FINAL as nat),
{
    let mut padded = [0u8;FINAL];
    let len = bytes.len();
    let mut index: usize = 0;
    while index < FINAL
        invariant
            index <= FINAL,
            len == bytes@.len(),
            forall|i: int| 0 <= i < index ==> padded@[i] == left_padded(bytes@, FINAL as nat)[i],
            forall|i: int| index <= i < FINAL ==> padded@[i] == 0u8,
        decreases FINAL - index,
    {
        if len >= FINAL - index {
            padded[index] = bytes[len - (FINAL - index)];
        }
        index = index + 1;
    }
    padded
}

fn right_pad<const FINAL: usize>(bytes: &[u8]) -> (padded: [u8; FINAL])
    ensures
        padded@ == right_padded(bytes@, FINAL as nat),
{
    let mut padded = [0u8;FINAL];
    let len = bytes.len();
    let mut index: usize = 0;
    while index < FINAL
        invariant
            index <= FINAL,
            len == bytes@.len(),
            forall|i: int| 0 <= i < index ==> padded@[i] == right_padded(bytes@, FINAL as nat)[i],
            forall|i: int| index <= i < FINAL ==> padded@[i] == 0u8,
        decreases FINAL - index,
    {
        if index < len {
            padded[index] = bytes[index];
        }
        index = index + 1;
    }
    padded
}

/// Bringing a byte sequence to a fixed width on its left side.
pub trait Left: Sized + View<V = Seq<u8>> {
    /// `self` as `FINAL` bytes: with zeros before it where it is shorter,
    /// without its first bytes where it is longer.
    fn pad_left<const FINAL: usize>(self) -> (padded: [u8; FINAL])
        ensures
            padded@ == left_padded(self@, FINAL as nat),
    ;
}

impl<const INITIAL: usize> Left for [u8; INITIAL] {
    fn pad_left<const FINAL: usize>(self) -> (padded: [u8; FINAL]) {
        left_pad(self.as_slice())
    }
}

impl Left for Vec<u8> {
    fn pad_left<const FINAL: usize>(self) -> (padded: [u8; FINAL]) {
        left_pad(self.as_slice())
    }
}

/// Bringing a byte sequence to a fixed width on its right side.
pub trait Right: Sized + View<V = Seq<u8>> {
    /// `self` as `FINAL` bytes: with zeros after it where it is shorter,
    /// without its last bytes where it is longer.
    fn pad_right<const FINAL: usize>(self) -> (padded: [u8; FINAL])
        ensures
            padded@ == right_padded(self@, FINAL as nat),
    ;
}

impl<const INITIAL: usize> Right for [u8; INITIAL] {
    fn pad_right<const FINAL: usize>(self) -> (padded: [u8; FINAL]) {
        right_pad(self.as_slice())
    }
}

impl Right for Vec<u8> {
    fn pad_right<const FINAL: usize>(self) -> (padded: [u8; FINAL]) {
        right_pad(self.as_slice())
    }
}

} // verus!
