//! Connection identifiers.

use vstd::prelude::*;

verus! {

/// The 128-bit identifier binding member links to the same aggregated
/// session, chosen by the initiator and echoed during handshake.  Held as
/// two 64-bit halves, high half first.
#[derive(Clone, Copy, Debug, PartialEq, Eq, Structural)]
pub struct ConnId {
    /// Most significant 64 bits.
    pub hi: u64,
    /// Least significant 64 bits.
    pub lo: u64,
}

impl ConnId {
    /// Builds an identifier from its two halves.
    pub fn new(hi: u64, lo: u64) -> (r: ConnId)
        ensures
            r.hi == hi && r.lo == lo,
    {
        ConnId { hi, lo }
    }

    /// Tests equality of two identifiers.
    pub fn eq_id(&self, other: &ConnId) -> (r: bool)
        ensures
            r == (*self == *other),
    {
        self.hi == other.hi && self.lo == other.lo
    }
}

} // verus!
