//! A bump allocator over a fixed capacity: it hands out offsets until
//! the capacity is exhausted.

use vstd::prelude::*;

verus! {

/// Bump allocator that starts with a fixed capacity and allocates
/// offsets until the capacity is exhausted.
#[derive(Debug)]
pub struct Allocator {
    capacity: usize,
    index: usize,
}

/// The next offset at or after `index` aligned to `align`.
pub open spec fn spec_next_aligned(index: int, align: int) -> int {
    (index + align - 1) / align * align
}

impl Allocator {
    /// The total capacity.
    pub closed spec fn spec_capacity(self) -> int {
        self.capacity as int
    }

    /// The next free offset.
    pub closed spec fn spec_index(self) -> int {
        self.index as int
    }

    pub fn new(capacity: usize) -> (a: Allocator)
        ensures
            a.spec_capacity() == capacity,
            a.spec_index() == 0,
    {
        Allocator { capacity, index: 0 }
    }

    /// Get the next offset that satisfies the given alignment.
    pub fn next_aligned(&self, align: usize) -> (r: Option<usize>)
        requires
            align > 0,
        ensures
            match r {
                Some(o) => o as int == spec_next_aligned(self.spec_index(), align as int),
                None => spec_next_aligned(self.spec_index(), align as int) > usize::MAX,
            },
    {
        let q = self.index / align;
        let rem = self.index % align;
        if rem == 0 {
            proof {
                assert(spec_next_aligned(self.index as int, align as int) == self.index as int)
                    by (nonlinear_arith)
                    requires
                        align >= 1,
                        self.index as int % align as int == 0,
                        q == self.index as int / align as int,
                ;
            }
            Some(self.index)
        } else {
            proof {
                assert(align >= 2) by (nonlinear_arith)
                    requires
                        align >= 1,
                        self.index as int % align as int != 0,
                ;
                assert(q < usize::MAX) by (nonlinear_arith)
                    requires
                        align >= 2,
                        q == self.index as int / align as int,
                        0 <= self.index <= usize::MAX,
                        usize::MAX >= 3,
                ;
                assert(spec_next_aligned(self.index as int, align as int) == (q + 1) * align as int)
                    by (nonlinear_arith)
                    requires
                        align >= 1,
                        self.index as int % align as int != 0,
                        q == self.index as int / align as int,
                        0 <= self.index,
                ;
            }
            match (q + 1).checked_mul(align) {
                Some(n) => Some(n),
                None => None,
            }
        }
    }

    /// Allocates `size` bytes, aligned to `align` when `aligned` is set;
    /// returns the allocation's offset, or `None` when the block does not
    /// fit into the remaining capacity.
    pub fn allocate(&mut self, aligned: bool, size: usize, align: usize) -> (r: Option<usize>)
        requires
            align > 0,
        ensures
            match r {
                Some(o) => {
                    let start = if aligned {
                        spec_next_aligned(old(self).spec_index(), align as int)
                    } else {
                        old(self).spec_index()
                    };
                    &&& o as int == start
                    &&& start + size <= old(self).spec_capacity()
                    &&& final(self).spec_index() == start + size
                    &&& final(self).spec_capacity() == old(self).spec_capacity()
                },
                None => {
                    &&& *final(self) == *old(self)
                    &&& (if aligned {
                        spec_next_aligned(old(self).spec_index(), align as int)
                    } else {
                        old(self).spec_index()
                    }) + size > old(self).spec_capacity()
                },
            },
    {
        let next = if aligned {
            match self.next_aligned(align) {
                Some(o) => o,
                None => {
                    return None;
                },
            }
        } else {
            self.index
        };
        match next.checked_add(size) {
            Some(end) => {
                if end > self.capacity {
                    return None;
                }
                self.index = end;
                Some(next)
            },
            None => None,
        }
    }
}

} // verus!
