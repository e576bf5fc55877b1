//! Block geometry shared by the allocator and by regions.

use vstd::prelude::*;

verus! {

/// A block of addresses: `size` bytes starting at `base`.
#[derive(Clone, Copy, Debug, PartialEq, Eq, Structural)]
pub struct MemInfo {
    pub base: u64,
    pub size: u64,
}

impl MemInfo {
    /// First address past the block, as a mathematical integer.
    pub open spec fn end(self) -> int {
        self.base + self.size
    }

    /// Whether `addr` lies inside the block.
    pub open spec fn contains(self, addr: int) -> bool {
        self.base <= addr < self.end()
    }

    /// Whether the two blocks share no address.
    pub open spec fn disjoint(self, other: MemInfo) -> bool {
        self.end() <= other.base || other.end() <= self.base
    }

    pub fn new(base: u64, size: u64) -> (info: MemInfo)
        ensures
            info.base == base,
            info.size == size,
    {
        MemInfo { base, size }
    }
}

} // verus!
