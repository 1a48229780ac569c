//! A bump allocator: addresses are handed out one after the other and given
//! back all at once.

use crate::memory::allocators::blocks::{round_up, rounded_up};
use vstd::prelude::*;

verus! {

/// A bump allocator over the region `[base, base + capacity)`.
#[derive(Debug)]
pub struct ArenaAllocator {
    base: usize,
    head_offset: usize,
    capacity: usize,
    owned: bool,
}

/// An arena as plain numbers.
pub struct ArenaModel {
    pub base: int,
    pub capacity: int,
    pub head_offset: int,
    pub owned: bool,
}

impl View for ArenaAllocator {
    type V = ArenaModel;

    closed spec fn view(&self) -> ArenaModel {
        ArenaModel {
            base: self.base as int,
            capacity: self.capacity as int,
            head_offset: self.head_offset as int,
            owned: self.owned,
        }
    }
}

impl ArenaModel {
    /// The region ends within the address space and the head lies inside it.
    pub open spec fn wf(self) -> bool {
        &&& 0 <= self.base
        &&& 0 <= self.head_offset <= self.capacity
        &&& self.base + self.capacity <= usize::MAX
    }

    /// Whether `address` lies in the region.
    pub open spec fn contains(self, address: int) -> bool {
        self.base <= address < self.base + self.capacity
    }

    /// Whether a request of `size` bytes at alignment `align` is served: the
    /// size, rounded up to a multiple of the alignment, must fit behind the
    /// head.
    pub open spec fn fits(self, size: int, align: int) -> bool {
        align > 0 && self.head_offset + rounded_up(size, align) <= self.capacity
    }

    /// The arena after serving a request that fits.
    pub open spec fn bumped(self, size: int, align: int) -> ArenaModel {
        ArenaModel { head_offset: self.head_offset + rounded_up(size, align), ..self }
    }
}

impl ArenaAllocator {
    /// The region ends within the address space and the head lies inside it.
    pub open spec fn wf(&self) -> bool {
        self@.wf()
    }

    /// An empty arena over a region that somebody else owns and releases.
    pub fn from_existing_allocation(base: usize, capacity: usize) -> (arena: Self)
        requires
            base + capacity <= usize::MAX,
        ensures
            arena.wf(),
            arena@ == (ArenaModel {
                base: base as int,
                capacity: capacity as int,
                head_offset: 0,
                owned: false,
            }),
    {
        Self { base, head_offset: 0, capacity, owned: false }
    }

    /// An empty arena over a region that was obtained for it and is to be
    /// released with it.
    pub fn from_owned_allocation(base: usize, capacity: usize) -> (arena: Self)
        requires
            base + capacity <= usize::MAX,
        ensures
            arena.wf(),
            arena@ == (ArenaModel {
                base: base as int,
                capacity: capacity as int,
                head_offset: 0,
                owned: true,
            }),
    {
        Self { base, head_offset: 0, capacity, owned: true }
    }

    /// Hands out the address at the head and moves the head on by `size`
    /// rounded up to a multiple of `align`. Where that does not fit, or `align`
    /// is zero, nothing is handed out and nothing changes.
    pub fn raw_alloc(&mut self, size: usize, align: usize) -> (address: Option<usize>)
        requires
            old(self).wf(),
        ensures
            final(self).wf(),
            match address {
                Some(given) => old(self)@.fits(size as int, align as int) && given == old(self)@.base
                    + old(self)@.head_offset && final(self)@ == old(self)@.bumped(
                    size as int,
                    align as int,
                ),
                None => !old(self)@.fits(size as int, align as int) && final(self)@ == old(self)@,
            },
    {
        let adjusted_size = match round_up(size, align) {
            Some(adjusted_size) => adjusted_size,
            None => {
                return None;
            },
        };
        if adjusted_size > self.capacity - self.head_offset {
            return None;
        }
        let result = self.base + self.head_offset;
        self.head_offset += adjusted_size;
        Some(result)
    }

    /// Gives back everything at once: the head returns to the base.
    pub fn release_all(&mut self)
        requires
            old(self).wf(),
        ensures
            final(self).wf(),
            final(self)@ == (ArenaModel { head_offset: 0, ..old(self)@ }),
    {
        self.head_offset = 0;
    }

    /// Whether `address` lies in the arena's region.
    pub fn contains(&self, address: usize) -> (inside: bool)
        requires
            self.wf(),
        ensures
            inside == self@.contains(address as int),
    {
        self.base <= address && address - self.base < self.capacity
    }

    /// First address of the region.
    pub fn base(&self) -> (base: usize)
        ensures
            base == self@.base,
    {
        self.base
    }

    /// Number of bytes in the region.
    pub fn capacity(&self) -> (capacity: usize)
        ensures
            capacity == self@.capacity,
    {
        self.capacity
    }

    /// Number of bytes handed out since the last release.
    pub fn used(&self) -> (used: usize)
        ensures
            used == self@.head_offset,
    {
        self.head_offset
    }

    /// Whether the region is to be released together with the arena.
    pub fn owns_region(&self) -> (owned: bool)
        ensures
            owned == self@.owned,
    {
        self.owned
    }
}

} // verus!
