use vstd::prelude::*;

verus! {

/// A closed set of optional disc-reading capabilities, kept as a bit-set:
/// bit 0 is plain reading, bit 1 the media catalog number, bit 2 the
/// per-track ISRC. No other bit is ever set.
#[derive(Clone, Copy, Debug, PartialEq, Eq, Structural)]
pub struct Features {
    bits: u32,
}

impl Features {
    /// The bits of the set, as contracts speak of them.
    pub closed spec fn spec_bits(&self) -> u32 {
        self.bits
    }

    /// The set never holds a bit outside the three known capabilities.
    pub closed spec fn wf(&self) -> bool {
        self.bits & 7 == self.bits
    }

    /// The capability of reading a disc's table of contents.
    pub fn read() -> (r: Features)
        ensures
            r.spec_bits() == 1,
            r.wf(),
    {
        proof {
            assert(1u32 & 7 == 1) by (bit_vector);
        }
        Features { bits: 1 }
    }

    /// The capability of reading the media catalog number.
    pub fn mcn() -> (r: Features)
        ensures
            r.spec_bits() == 2,
            r.wf(),
    {
        proof {
            assert(2u32 & 7 == 2) by (bit_vector);
        }
        Features { bits: 2 }
    }

    /// The capability of reading per-track ISRC values.
    pub fn isrc() -> (r: Features)
        ensures
            r.spec_bits() == 4,
            r.wf(),
    {
        proof {
            assert(4u32 & 7 == 4) by (bit_vector);
        }
        Features { bits: 4 }
    }

    /// The union of all three capabilities.
    pub fn all() -> (r: Features)
        ensures
            r.spec_bits() == 7,
            r.wf(),
    {
        proof {
            assert(7u32 & 7 == 7) by (bit_vector);
        }
        Features { bits: 7 }
    }

    /// The union of two capability sets.
    pub fn union(self, other: Features) -> (r: Features)
        ensures
            r.spec_bits() == self.spec_bits() | other.spec_bits(),
            self.wf() && other.wf() ==> r.wf(),
    {
        proof {
            let a = self.bits;
            let b = other.bits;
            assert(a & 7 == a && b & 7 == b ==> (a | b) & 7 == (a | b)) by (bit_vector);
        }
        Features { bits: self.bits | other.bits }
    }

    /// Whether every capability of `other` is in this set.
    pub fn contains(self, other: Features) -> (r: bool)
        ensures
            r == (self.spec_bits() & other.spec_bits() == other.spec_bits()),
    {
        self.bits & other.bits == other.bits
    }

    /// The raw bit value of the set.
    pub fn bits(self) -> (r: u32)
        ensures
            r == self.spec_bits(),
    {
        self.bits
    }
}

} // verus!
