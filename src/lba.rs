//! Append-only allocation of logical block addresses.

use vstd::prelude::*;

verus! {

/// Number of whole sectors of `sector_size` bytes needed to hold `size` bytes.
pub open spec fn sectors_for(size: int, sector_size: int) -> int
    recommends
        sector_size > 0,
{
    (size + sector_size - 1) / sector_size
}

/// Hands out increasing sector addresses, never reclaiming any.
pub struct LbaAllocator {
    sector_size: u32,
    next_lba: u32,
}

impl LbaAllocator {
    /// Bytes per sector.
    pub closed spec fn spec_sector_size(&self) -> u32 {
        self.sector_size
    }

    /// The address that the next allocation returns.
    pub closed spec fn spec_next_lba(&self) -> u32 {
        self.next_lba
    }

    pub open spec fn wf(&self) -> bool {
        self.spec_sector_size() > 0
    }

    /// Whether an extent of `size` bytes can still be given an address that,
    /// together with its sectors, stays within 32 bits.
    pub open spec fn can_allocate(&self, size: u32) -> bool {
        self.spec_next_lba() + sectors_for(size as int, self.spec_sector_size() as int) <= u32::MAX
    }

    /// Creates an allocator whose first address is `offset`.
    pub fn new(sector_size: u32, offset: u32) -> (r: Self)
        requires
            sector_size > 0,
        ensures
            r.wf(),
            r.spec_sector_size() == sector_size,
            r.spec_next_lba() == offset,
    {
        LbaAllocator { sector_size, next_lba: offset }
    }

    pub fn sector_size(&self) -> (r: u32)
        ensures
            r == self.spec_sector_size(),
    {
        self.sector_size
    }

    pub fn next_lba(&self) -> (r: u32)
        ensures
            r == self.spec_next_lba(),
    {
        self.next_lba
    }

    /// Whether `allocate(size)` may be called without the counter overflowing.
    pub fn fits(&self, size: u32) -> (r: bool)
        requires
            self.wf(),
        ensures
            r == self.can_allocate(size),
    {
        let sectors = self.sectors(size);
        sectors <= u32::MAX - self.next_lba
    }

    fn sectors(&self, size: u32) -> (r: u32)
        requires
            self.wf(),
        ensures
            r == sectors_for(size as int, self.spec_sector_size() as int),
    {
        let whole = size / self.sector_size;
        let rest = size % self.sector_size;
        proof {
            let s = size as int;
            let n = self.sector_size as int;
            assert(s == n * (s / n) + s % n) by (nonlinear_arith)
                requires n > 0;
            assert(0 <= s % n < n) by (nonlinear_arith)
                requires n > 0;
            if s % n == 0 {
                assert((s + n - 1) / n == s / n) by (nonlinear_arith)
                    requires n > 0, s == n * (s / n);
            } else {
                assert((s + n - 1) / n == s / n + 1) by (nonlinear_arith)
                    requires n > 0, s == n * (s / n) + s % n, 0 < s % n < n;
                let q = s / n;
                let r = s % n;
                assert(q >= 0);
                assert(n * q >= q) by (nonlinear_arith)
                    requires n > 1, q >= 0;
                assert(q < s);
            }
            assert(s / n <= s) by (nonlinear_arith)
                requires n > 0, s >= 0;
        }
        if rest == 0 {
            whole
        } else {
            whole + 1
        }
    }

    /// Returns the next free address and reserves enough whole sectors
    /// after it for `size` bytes.
    pub fn allocate(&mut self, size: u32) -> (lba: u32)
        requires
            old(self).wf(),
            old(self).can_allocate(size),
        ensures
            final(self).wf(),
            lba == old(self).spec_next_lba(),
            final(self).spec_sector_size() == old(self).spec_sector_size(),
            final(self).spec_next_lba() == old(self).spec_next_lba() + sectors_for(
                size as int,
                old(self).spec_sector_size() as int,
            ),
    {
        let lba = self.next_lba;
        let sectors = self.sectors(size);
        self.next_lba = self.next_lba + sectors;
        lba
    }
}

} // verus!
