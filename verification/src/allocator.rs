//! A linear (bump) byte allocator.
//!
//! Addresses are handed out linearly from a single contiguous region: each
//! allocation advances a watermark, and nothing is reclaimed until every
//! allocation has been returned, at which point the watermark snaps back to
//! the start of the region.

use vstd::prelude::*;

verus! {

/// The ways a request to the byte allocator can fail.
#[derive(Clone, Copy, PartialEq, Eq, Structural, Debug)]
pub enum AllocError {
    /// The request does not fit the allocator's rules (a region that is not
    /// adjacent to the heap, or a size that overflows the address space).
    InvalidParam,
    /// The region has no room left for the requested size.
    NoMemory,
}

/// A bump allocator over one contiguous byte region.
pub struct SimpleByteAllocator {
    heap_start: usize,
    heap_end: usize,
    next: usize,
    allocations: usize,
}

impl SimpleByteAllocator {
    /// First address of the managed region.
    pub closed spec fn spec_heap_start(&self) -> usize {
        self.heap_start
    }

    /// One past the last address of the managed region.
    pub closed spec fn spec_heap_end(&self) -> usize {
        self.heap_end
    }

    /// The watermark: the address the next allocation would return.
    pub closed spec fn spec_next(&self) -> usize {
        self.next
    }

    /// How many allocations are currently outstanding.
    pub closed spec fn spec_allocations(&self) -> usize {
        self.allocations
    }

    /// The allocator invariant: the watermark lies within the managed region.
    pub open spec fn wf(&self) -> bool {
        self.spec_heap_start() <= self.spec_next() <= self.spec_heap_end()
    }

    /// Creates an allocator that manages no memory yet.
    pub fn new() -> (r: Self)
        ensures
            r.spec_heap_start() == 0,
            r.spec_heap_end() == 0,
            r.spec_next() == 0,
            r.spec_allocations() == 0,
            r.wf(),
    {
        SimpleByteAllocator { heap_start: 0, heap_end: 0, next: 0, allocations: 0 }
    }

    /// Hands the allocator its free memory region. The caller must ensure the
    /// region is unused and call this only once, before any allocation.
    pub fn init(&mut self, start: usize, size: usize)
        requires
            start + size <= usize::MAX,
        ensures
            final(self).spec_heap_start() == start,
            final(self).spec_heap_end() == start + size,
            final(self).spec_next() == start,
            final(self).spec_allocations() == old(self).spec_allocations(),
            final(self).wf(),
    {
        self.heap_start = start;
        self.heap_end = start + size;
        self.next = start;
    }

    /// Grows the managed region by a free memory region adjacent to it: one
    /// that starts exactly at the current end, or one that ends exactly at
    /// the current start. Any other region is rejected as invalid, and the
    /// allocator is left untouched.
    pub fn add_memory(&mut self, start: usize, size: usize) -> (r: Result<(), AllocError>)
        requires
            old(self).wf(),
            start + size <= usize::MAX,
        ensures
            final(self).wf(),
            final(self).spec_allocations() == old(self).spec_allocations(),
            start == old(self).spec_heap_end() ==> {
                &&& r is Ok
                &&& final(self).spec_heap_start() == old(self).spec_heap_start()
                &&& final(self).spec_heap_end() == start + size
                &&& final(self).spec_next() == old(self).spec_next()
            },
            start != old(self).spec_heap_end() && start + size == old(self).spec_heap_start()
                ==> {
                &&& r is Ok
                &&& final(self).spec_heap_start() == start
                &&& final(self).spec_heap_end() == old(self).spec_heap_end()
                &&& final(self).spec_next() == if old(self).spec_next() == old(
                    self,
                ).spec_heap_start() {
                    start
                } else {
                    old(self).spec_next()
                }
            },
            start != old(self).spec_heap_end() && start + size != old(self).spec_heap_start()
                ==> {
                &&& r == Err::<(), AllocError>(AllocError::InvalidParam)
                &&& final(self).spec_heap_start() == old(self).spec_heap_start()
                &&& final(self).spec_heap_end() == old(self).spec_heap_end()
                &&& final(self).spec_next() == old(self).spec_next()
            },
    {
        if start == self.heap_end {
            self.heap_end = self.heap_end + size;
            return Ok(());
        } else if start + size == self.heap_start {
            self.heap_start = self.heap_start - size;
            if self.next == self.heap_start + size {
                self.next = self.heap_start;
            }
            return Ok(());
        }
        Err(AllocError::InvalidParam)
    }

    /// Allocates `size` bytes at the watermark, advancing it; alignment plays
    /// no role in this linear policy. Fails with `InvalidParam` when the
    /// request would overflow the address space, and with `NoMemory` when the
    /// region has no room left; either failure leaves the allocator
    /// untouched. A successful allocation never hands out the null address.
    pub fn allocate(&mut self, size: usize) -> (r: Result<usize, AllocError>)
        requires
            old(self).wf(),
            old(self).spec_allocations() < usize::MAX,
            old(self).spec_next() == 0 ==> size > old(self).spec_heap_end(),
        ensures
            final(self).wf(),
            final(self).spec_heap_start() == old(self).spec_heap_start(),
            final(self).spec_heap_end() == old(self).spec_heap_end(),
            old(self).spec_next() + size > usize::MAX ==> {
                &&& r == Err::<usize, AllocError>(AllocError::InvalidParam)
                &&& *final(self) == *old(self)
            },
            old(self).spec_next() + size <= usize::MAX && old(self).spec_next() + size > old(
                self,
            ).spec_heap_end() ==> {
                &&& r == Err::<usize, AllocError>(AllocError::NoMemory)
                &&& *final(self) == *old(self)
            },
            old(self).spec_next() + size <= old(self).spec_heap_end() ==> {
                &&& r == Ok::<usize, AllocError>(old(self).spec_next())
                &&& old(self).spec_next() != 0
                &&& final(self).spec_next() == old(self).spec_next() + size
                &&& final(self).spec_allocations() == old(self).spec_allocations() + 1
            },
    {
        let alloc_start = self.next;
        let alloc_end = match alloc_start.checked_add(size) {
            Some(end) => end,
            None => {
                return Err(AllocError::InvalidParam);
            },
        };
        if alloc_end > self.heap_end {
            return Err(AllocError::NoMemory);
        }
        self.next = alloc_end;
        self.allocations = self.allocations + 1;
        Ok(alloc_start)
    }

    /// Returns one allocation. This linear policy reclaims nothing until the
    /// last outstanding allocation comes back, at which point the watermark
    /// snaps back to the start of the region; the position of the returned
    /// allocation plays no role.
    pub fn dealloc(&mut self, _pos: usize)
        requires
            old(self).wf(),
            old(self).spec_allocations() > 0,
        ensures
            final(self).wf(),
            final(self).spec_heap_start() == old(self).spec_heap_start(),
            final(self).spec_heap_end() == old(self).spec_heap_end(),
            final(self).spec_allocations() == old(self).spec_allocations() - 1,
            final(self).spec_next() == if old(self).spec_allocations() == 1 {
                old(self).spec_heap_start()
            } else {
                old(self).spec_next()
            },
    {
        self.allocations = self.allocations - 1;
        if self.allocations == 0 {
            self.next = self.heap_start;
        }
    }

    /// Returns the total size of the managed region, in bytes.
    pub fn total_bytes(&self) -> (r: usize)
        requires
            self.wf(),
        ensures
            r == self.spec_heap_end() - self.spec_heap_start(),
    {
        self.heap_end - self.heap_start
    }

    /// Returns how many bytes of the region have been handed out.
    pub fn used_bytes(&self) -> (r: usize)
        requires
            self.wf(),
        ensures
            r == self.spec_next() - self.spec_heap_start(),
    {
        self.next - self.heap_start
    }

    /// Returns how many bytes of the region are still free.
    pub fn available_bytes(&self) -> (r: usize)
        requires
            self.wf(),
        ensures
            r == self.spec_heap_end() - self.spec_next(),
    {
        self.heap_end - self.next
    }
}

} // verus!
