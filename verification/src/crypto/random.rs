//! What was drawn at random. Only this module makes such values, so that what is
//! said of them is said of bytes and numbers that were drawn.

use vstd::prelude::*;

use crate::crypto::primitives::{random_bytes, random_number};

verus! {

/// Bytes that were drawn at random.
pub struct Drawn {
    bytes: Vec<u8>,
}

impl View for Drawn {
    type V = Seq<u8>;

    closed spec fn view(&self) -> Seq<u8> {
        self.bytes@
    }
}

impl Drawn {
    /// Draws so many bytes.
    pub fn bytes(count: usize) -> (r: Drawn)
        ensures
            r@.len() == count,
    {
        Drawn { bytes: random_bytes(count) }
    }

    /// The bytes that were drawn.
    pub fn into_bytes(self) -> (r: Vec<u8>)
        ensures
            r@ == self@,
            drawn(r@),
    {
        assert(self@ == self.bytes@);
        self.bytes
    }
}

/// Whether the bytes were drawn at random.
pub open spec fn drawn(bytes: Seq<u8>) -> bool {
    exists|d: Drawn| #[trigger] d@ == bytes
}

/// A number that was drawn at random.
pub struct DrawnNumber {
    number: u64,
}

impl View for DrawnNumber {
    type V = u64;

    closed spec fn view(&self) -> u64 {
        self.number
    }
}

impl DrawnNumber {
    /// Draws a number.
    pub fn draw() -> (r: DrawnNumber) {
        DrawnNumber { number: random_number() }
    }

    /// The number that was drawn.
    pub fn number(&self) -> (r: u64)
        ensures
            r == self@,
    {
        self.number
    }
}

} // verus!
