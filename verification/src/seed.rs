//! The explicit seed bytes of a random process; no random algorithm lives here.

use vstd::prelude::*;

verus! {

/// An explicit random seed of exactly 32 bytes.
///
/// Every byte pattern is valid, the all-zero one included. The type neither generates seeds nor
/// names a random algorithm; reproducing a shuffle also needs the same initial order, algorithm
/// and dependency versions.
#[derive(Clone, Copy, PartialEq, Eq, Hash)]
pub struct Seed([u8; 32]);

impl View for Seed {
    type V = Seq<u8>;

    /// The 32 seed bytes.
    closed spec fn view(&self) -> Seq<u8> {
        self.0@
    }
}

impl Seed {
    /// Number of bytes in a seed.
    pub const BYTE_LEN: usize = 32;

    /// A seed made of exactly these bytes.
    pub fn from_bytes(bytes: [u8; 32]) -> (r: Seed)
        ensures
            r@ == bytes@,
    {
        Seed(bytes)
    }

    /// Borrows the raw seed bytes.
    pub fn as_bytes(&self) -> (r: &[u8; 32])
        ensures
            r@ == self@,
    {
        &self.0
    }

    /// Returns the raw seed bytes.
    pub fn into_bytes(self) -> (r: [u8; 32])
        ensures
            r@ == self@,
    {
        self.0
    }
}

impl From<[u8; 32]> for Seed {
    /// Keeps every input byte.
    fn from(bytes: [u8; 32]) -> (r: Seed)
        ensures
            r@ == bytes@,
    {
        Seed(bytes)
    }
}

impl vstd::std_specs::convert::FromSpecImpl<[u8; 32]> for Seed {
    open spec fn obeys_from_spec() -> bool {
        true
    }

    closed spec fn from_spec(bytes: [u8; 32]) -> Seed {
        Seed(bytes)
    }
}

} // verus!
