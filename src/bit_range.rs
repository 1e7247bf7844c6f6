use vstd::prelude::*;

verus! {

/// Inclusive bit positions of a field within its register.
#[derive(Clone, Copy, Debug, PartialEq, Eq, Structural, PartialOrd, Ord, Hash)]
pub struct BitRange {
    pub lsb: u32,
    pub msb: u32,
}

impl BitRange {
    /// A range is well formed when its most significant bit is not below its
    /// least significant one.
    pub open spec fn wf(self) -> bool {
        self.lsb <= self.msb
    }

    /// Number of bits of the range.
    pub open spec fn spec_width(self) -> int {
        self.msb - self.lsb + 1
    }

    pub fn width(&self) -> (r: u32)
        requires
            self.wf(),
            self.msb - self.lsb + 1 <= u32::MAX,
        ensures
            r == self.spec_width(),
    {
        self.msb - self.lsb + 1
    }
}

} // verus!
