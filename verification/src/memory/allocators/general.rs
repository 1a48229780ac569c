//! A buddy allocator: blocks of power-of-two sizes over a region whose size is
//! a power of two, one free list per size class.

use crate::memory::allocators::blocks::{
    ceil_log2, checked_next_power_of_two, exponent_of, is_power_of_two, lemma_next_power_of_two,
    lemma_next_power_of_two_fixed, next_power_of_two, power_of_two,
};
use crate::memory::allocators::{AllocatorError, MIN_PAGE_ALIGNMENT};
use vstd::arithmetic::power2::{
    lemma_pow2_adds, lemma_pow2_pos, lemma_pow2_strictly_increases, lemma_pow2_unfold, pow2,
};
use vstd::prelude::*;

verus! {

/// A buddy allocator with `DEPTH` size classes ("orders") over the region
/// `[base, base + capacity)`. Order 0 holds the smallest blocks; a block of
/// one order is twice the size of a block of the order below.
#[derive(Debug)]
pub struct GeneralAllocator<const DEPTH: usize> {
    base: usize,
    capacity: usize,
    freelists: Vec<Vec<usize>>,
    block_sizes: Vec<usize>,
    min_block_size: usize,
    owned: bool,
}

/// A buddy allocator as plain values. `lists[o]` holds the addresses of the
/// free blocks of order `o`; the block that was put in last is the last one
/// and the first to be taken out.
pub struct BuddyModel {
    pub base: int,
    pub capacity: int,
    pub min_block: int,
    pub lists: Seq<Seq<usize>>,
    pub owned: bool,
}

/// The size of the smallest block of an allocator with `depth` orders over
/// `capacity` bytes: the capacity halved once for each order above the lowest.
pub open spec fn min_block_of(capacity: int, depth: int) -> int
    recommends
        depth >= 1,
{
    capacity / (pow2((depth - 1) as nat) as int)
}

/// Whether a buddy allocator with `depth` orders can manage `capacity` bytes
/// at `base`: the base is a multiple of the page size, the capacity a power of
/// two, the smallest block has room for one pointer, and the region ends
/// within the address space.
pub open spec fn can_manage(base: int, capacity: int, depth: int) -> bool {
    &&& depth >= 1
    &&& base % (MIN_PAGE_ALIGNMENT as int) == 0
    &&& power_of_two(capacity)
    &&& min_block_of(capacity, depth) >= vstd::layout::size_of::<usize>()
    &&& base + capacity <= usize::MAX
}

/// The free lists of a fresh allocator: the whole region as one block of the
/// highest order, and nothing else.
pub open spec fn fresh_lists(base: usize, depth: int) -> Seq<Seq<usize>> {
    Seq::new(
        depth as nat,
        |order: int|
            if order == depth - 1 {
                seq![base]
            } else {
                Seq::<usize>::empty()
            },
    )
}

/// `offset` with the bit of `size` flipped, `size` being a power of two.
pub open spec fn buddy_offset(offset: int, size: int) -> int {
    ((offset as u64) ^ (size as u64)) as int
}

/// Where `block` stands in `list`, seen from its head, which is its end.
pub open spec fn position_from_head(list: Seq<usize>, block: usize) -> Option<int>
    decreases list.len(),
{
    if list.len() == 0 {
        None
    } else if list.last() == block {
        Some(list.len() - 1)
    } else {
        position_from_head(list.drop_last(), block)
    }
}

impl BuddyModel {
    /// Number of orders.
    pub open spec fn depth(self) -> int {
        self.lists.len() as int
    }

    /// Size of a block of the given order.
    pub open spec fn block_size(self, order: int) -> int
        recommends
            order >= 0,
    {
        self.min_block * pow2(order as nat)
    }

    /// Whether a block of the given order can lie at `address`: inside the
    /// region, at a multiple of its size from the base.
    pub open spec fn valid_block(self, address: int, order: int) -> bool {
        &&& 0 <= order < self.depth()
        &&& self.base <= address
        &&& (address - self.base) % self.block_size(order) == 0
        &&& address - self.base + self.block_size(order) <= self.capacity
    }

    /// Whether `address` lies in the region.
    pub open spec fn contains(self, address: int) -> bool {
        self.base <= address < self.base + self.capacity
    }

    /// The size of the block that serves a request: the largest of size,
    /// alignment and smallest block size, rounded up to a power of two. The
    /// alignment must be a power of two and at most a page, and the block must
    /// not be larger than the region.
    pub open spec fn allocation_size(self, size: int, align: int) -> Result<int, AllocatorError> {
        if !power_of_two(align) || align > MIN_PAGE_ALIGNMENT {
            Err(AllocatorError::BadRequest)
        } else {
            let needed = if size >= align && size >= self.min_block {
                size
            } else if align >= self.min_block {
                align
            } else {
                self.min_block
            };
            if next_power_of_two(needed) > self.capacity {
                Err(AllocatorError::BadRequest)
            } else {
                Ok(next_power_of_two(needed))
            }
        }
    }

    /// The order that serves a request: how many doublings lead from the
    /// smallest block to the block of [`Self::allocation_size`].
    pub open spec fn allocation_order(self, size: int, align: int) -> Result<int, AllocatorError> {
        match self.allocation_size(size, align) {
            Ok(block) => Ok(ceil_log2(block) - ceil_log2(self.min_block)),
            Err(error) => Err(error),
        }
    }

    /// The lowest order at or above `from` that has a free block.
    pub open spec fn first_free(self, from: int) -> Option<int>
        decreases self.depth() - from,
    {
        if from < 0 || from >= self.depth() {
            None
        } else if self.lists[from].len() > 0 {
            Some(from)
        } else {
            self.first_free(from + 1)
        }
    }

    /// The allocator after the block at the head of order `found` was taken to
    /// serve a request of order `target`: the block is gone from its list, and
    /// for each order from `target` up to but not including `found` the upper
    /// half of what was left of the block is free.
    pub open spec fn taken(self, target: int, found: int) -> BuddyModel
        recommends
            0 <= target <= found < self.depth(),
            self.lists[found].len() > 0,
    {
        let block = self.lists[found].last();
        BuddyModel {
            lists: Seq::new(
                self.lists.len(),
                |order: int|
                    if order == found {
                        self.lists[order].drop_last()
                    } else if target <= order < found {
                        self.lists[order].push((block + self.block_size(order)) as usize)
                    } else {
                        self.lists[order]
                    },
            ),
            ..self
        }
    }

    /// What serving a request of order `target` gives: the address, if any
    /// order from `target` up has a free block, and the allocator afterwards.
    pub open spec fn allocated(self, target: int) -> (Option<usize>, BuddyModel) {
        match self.first_free(target) {
            Some(found) => (Some(self.lists[found].last()), self.taken(target, found)),
            None => (None, self),
        }
    }

    /// The address of the buddy of the block of the given order at `address`:
    /// the block's offset from the base with the bit of the block size flipped.
    pub open spec fn buddy_of(self, address: int, order: int) -> int {
        self.base + buddy_offset(address - self.base, self.block_size(order))
    }

    /// This allocator with `block` put at the head of the free list of `order`.
    pub open spec fn inserted(self, order: int, block: usize) -> BuddyModel {
        BuddyModel { lists: self.lists.update(order, self.lists[order].push(block)), ..self }
    }

    /// This allocator without the entry at `index` of the free list of `order`.
    pub open spec fn removed(self, order: int, index: int) -> BuddyModel {
        BuddyModel { lists: self.lists.update(order, self.lists[order].remove(index)), ..self }
    }

    /// The allocator after the block of the given order at `block` was given
    /// back: as long as the block's buddy is free and the block is smaller than
    /// the region, the buddy leaves its list and the two go on as one block of
    /// the next order; then the block is put into the list of its order.
    pub open spec fn released(self, block: usize, order: int) -> BuddyModel
        decreases self.depth() - order,
    {
        if 0 <= order < self.depth() - 1 {
            let buddy = self.buddy_of(block as int, order) as usize;
            match position_from_head(self.lists[order], buddy) {
                Some(index) => self.removed(order, index).released(
                    if block < buddy {
                        block
                    } else {
                        buddy
                    },
                    order + 1,
                ),
                None => self.inserted(order, block),
            }
        } else {
            self.inserted(order, block)
        }
    }

    /// The parameters fit together and every free block is a valid block of
    /// its order.
    pub open spec fn wf(self) -> bool {
        &&& self.depth() >= 1
        &&& 0 <= self.base
        &&& self.base % (MIN_PAGE_ALIGNMENT as int) == 0
        &&& self.base + self.capacity <= usize::MAX
        &&& power_of_two(self.min_block)
        &&& self.min_block >= vstd::layout::size_of::<usize>()
        &&& self.capacity == self.block_size(self.depth() - 1)
        &&& forall|order: int, i: int|
            0 <= order < self.depth() && 0 <= i < self.lists[order].len() ==> self.valid_block(
                #[trigger] self.lists[order][i] as int,
                order,
            )
    }
}

impl<const DEPTH: usize> View for GeneralAllocator<DEPTH> {
    type V = BuddyModel;

    closed spec fn view(&self) -> BuddyModel {
        BuddyModel {
            base: self.base as int,
            capacity: self.capacity as int,
            min_block: self.min_block_size as int,
            lists: Seq::new(self.freelists@.len(), |order: int| self.freelists@[order]@),
            owned: self.owned,
        }
    }
}

impl<const DEPTH: usize> GeneralAllocator<DEPTH> {
    /// The table of block sizes agrees with the parameters.
    pub closed spec fn consistent(&self) -> bool {
        &&& self.freelists@.len() == DEPTH
        &&& self.block_sizes@.len() == DEPTH
        &&& forall|order: int|
            0 <= order < DEPTH ==> (#[trigger] self.block_sizes@[order]) as int
                == self@.block_size(order)
    }

    /// The allocator has `DEPTH` orders and its books are in order.
    pub open spec fn wf(&self) -> bool {
        &&& self.consistent()
        &&& self@.depth() == DEPTH
        &&& self@.wf()
    }

    /// A fresh allocator over `capacity` bytes at `base`, or `BadConstraints`
    /// where the region does not meet what the allocator asks for.
    fn new(base: usize, capacity: usize, owned: bool) -> (made: Result<Self, AllocatorError>)
        ensures
            match made {
                Ok(allocator) => can_manage(base as int, capacity as int, DEPTH as int)
                    && allocator.wf() && allocator@ == (BuddyModel {
                    base: base as int,
                    capacity: capacity as int,
                    min_block: min_block_of(capacity as int, DEPTH as int),
                    lists: fresh_lists(base, DEPTH as int),
                    owned,
                }),
                Err(error) => error == AllocatorError::BadConstraints && !can_manage(
                    base as int,
                    capacity as int,
                    DEPTH as int,
                ),
            },
    {
        if DEPTH == 0 || base % MIN_PAGE_ALIGNMENT != 0 || capacity > usize::MAX - base {
            return Err(AllocatorError::BadConstraints);
        }
        if !is_power_of_two(capacity) {
            return Err(AllocatorError::BadConstraints);
        }
        let exponent = exponent_of(capacity);
        // Halve the capacity once for each order above the lowest.
        let mut min_block_size = capacity;
        let mut halved: usize = 0;
        while halved < DEPTH - 1 && min_block_size > 1
            invariant
                halved <= DEPTH - 1,
                halved <= exponent,
                capacity == pow2(exponent as nat),
                min_block_size == pow2((exponent - halved) as nat),
            decreases DEPTH - 1 - halved,
        {
            proof {
                if halved == exponent {
                    assert(pow2(0) == 1) by {
                        vstd::arithmetic::power2::lemma2_to64();
                    }
                }
                lemma_pow2_unfold((exponent - halved) as nat);
            }
            min_block_size = min_block_size / 2;
            halved += 1;
        }
        proof {
            if halved < DEPTH - 1 && halved < exponent {
                assert(pow2(0) == 1) by {
                    vstd::arithmetic::power2::lemma2_to64();
                }
                lemma_pow2_strictly_increases(0, (exponent - halved) as nat);
            }
            lemma_min_block(exponent as nat, halved as nat, (DEPTH - 1) as nat);
        }
        if halved < DEPTH - 1 || min_block_size < core::mem::size_of::<usize>() {
            return Err(AllocatorError::BadConstraints);
        }
        let ghost low = (exponent - halved) as nat;
        let mut freelists: Vec<Vec<usize>> = Vec::new();
        let mut block_sizes: Vec<usize> = Vec::new();
        let mut size = min_block_size;
        let mut order: usize = 0;
        proof {
            assert(pow2(0) == 1) by {
                vstd::arithmetic::power2::lemma2_to64();
            }
        }
        while order < DEPTH
            invariant
                order <= DEPTH,
                DEPTH - 1 + low == exponent,
                capacity == pow2(exponent as nat),
                min_block_size == pow2(low),
                freelists@.len() == order,
                block_sizes@.len() == order,
                order < DEPTH ==> size == min_block_size * pow2(order as nat),
                forall|o: int|
                    0 <= o < order ==> (#[trigger] block_sizes@[o]) as int == min_block_size * pow2(
                        o as nat,
                    ),
                forall|o: int|
                    0 <= o < order ==> (#[trigger] freelists@[o])@ == fresh_lists(
                        base,
                        DEPTH as int,
                    )[o],
            decreases DEPTH - order,
        {
            let mut list: Vec<usize> = Vec::new();
            if order == DEPTH - 1 {
                list.push(base);
                assert(list@ =~= seq![base]);
            }
            freelists.push(list);
            block_sizes.push(size);
            proof {
                lemma_pow2_adds(low, order as nat);
                lemma_pow2_unfold((order + 1) as nat);
                if order + 1 < DEPTH {
                    lemma_pow2_adds(low, (order + 1) as nat);
                    if low + order + 1 < exponent {
                        lemma_pow2_strictly_increases((low + order + 1) as nat, exponent as nat);
                    }
                    assert(min_block_size * (2 * pow2(order as nat)) == 2 * (min_block_size * pow2(
                        order as nat,
                    ))) by (nonlinear_arith);
                }
            }
            if order + 1 < DEPTH {
                size = size * 2;
            }
            order += 1;
        }
        let allocator = Self { base, capacity, freelists, block_sizes, min_block_size, owned };
        proof {
            lemma_pow2_adds(low, (DEPTH - 1) as nat);
            assert(allocator@.lists =~= fresh_lists(base, DEPTH as int));
            assert(allocator@.block_size(DEPTH - 1) == capacity);
            assert(power_of_two(min_block_size as int));
            assert(base as int % allocator@.block_size(DEPTH - 1) == base as int % (
            capacity as int));
            lemma_pow2_pos(exponent as nat);
            assert(0int % (capacity as int) == 0);
            assert((base - base) % allocator@.block_size(DEPTH - 1) == 0);
        }
        Ok(allocator)
    }

    /// Whether nothing but the free lists differs between `self` and `before`.
    pub open spec fn same_region(&self, before: &Self) -> bool {
        &&& self@.base == before@.base
        &&& self@.capacity == before@.capacity
        &&& self@.min_block == before@.min_block
        &&& self@.owned == before@.owned
        &&& self@.lists.len() == before@.lists.len()
    }

    /// Takes the block at the head of the free list of `order`, if there is one.
    fn block_pop(&mut self, order: usize) -> (block: Option<usize>)
        requires
            old(self).wf(),
            order < DEPTH,
        ensures
            final(self).wf(),
            final(self).same_region(old(self)),
            match block {
                Some(taken) => old(self)@.lists[order as int].len() > 0 && taken == old(
                    self,
                )@.lists[order as int].last() && final(self)@.lists == old(self)@.lists.update(
                    order as int,
                    old(self)@.lists[order as int].drop_last(),
                ),
                None => old(self)@.lists[order as int].len() == 0 && final(self)@ == old(self)@,
            },
    {
        let block = self.freelists[order].pop();
        proof {
            if block is Some {
                assert(self@.lists =~= old(self)@.lists.update(
                    order as int,
                    old(self)@.lists[order as int].drop_last(),
                ));
            } else {
                assert(self@.lists =~= old(self)@.lists);
            }
        }
        block
    }

    /// Puts `block` at the head of the free list of `order`.
    fn block_insert(&mut self, order: usize, block: usize)
        requires
            old(self).wf(),
            old(self)@.valid_block(block as int, order as int),
        ensures
            final(self).wf(),
            final(self).same_region(old(self)),
            final(self)@ == old(self)@.inserted(order as int, block),
    {
        self.freelists[order].push(block);
        proof {
            assert(self@.lists =~= old(self)@.lists.update(
                order as int,
                old(self)@.lists[order as int].push(block),
            ));
        }
    }

    /// Takes `block` out of the free list of `order`, if it is in it, and says
    /// whether it was.
    fn block_remove(&mut self, order: usize, block: usize) -> (found: bool)
        requires
            old(self).wf(),
            order < DEPTH,
        ensures
            final(self).wf(),
            final(self).same_region(old(self)),
            match position_from_head(old(self)@.lists[order as int], block) {
                Some(index) => found && final(self)@ == old(self)@.removed(order as int, index),
                None => !found && final(self)@ == old(self)@,
            },
    {
        let mut at: usize = self.freelists[order].len();
        proof {
            assert(self@.lists[order as int].take(at as int) =~= self@.lists[order as int]);
        }
        while at > 0
            invariant
                *self == *old(self),
                order < DEPTH,
                self.wf(),
                at <= self@.lists[order as int].len(),
                position_from_head(self@.lists[order as int], block) == position_from_head(
                    self@.lists[order as int].take(at as int),
                    block,
                ),
            decreases at,
        {
            at -= 1;
            proof {
                let list = self@.lists[order as int];
                assert(list.take(at + 1).drop_last() =~= list.take(at as int));
            }
            if self.freelists[order][at] == block {
                let ghost list = self@.lists[order as int];
                self.freelists[order].remove(at);
                proof {
                    assert(self@.lists =~= old(self)@.lists.update(
                        order as int,
                        list.remove(at as int),
                    ));
                }
                return true;
            }
        }
        proof {
            assert(self@.lists[order as int].take(self@.lists[order as int].len() as int)
                =~= self@.lists[order as int]);
        }
        false
    }

    /// The size of the block that serves a request of `in_size` bytes at
    /// `alignment`; `BadRequest` where the alignment is no power of two or
    /// above a page, or the block would be larger than the region.
    pub fn get_allocation_size(&self, in_size: usize, alignment: usize) -> (block: Result<
        usize,
        AllocatorError,
    >)
        requires
            self.wf(),
        ensures
            match block {
                Ok(size) => self@.allocation_size(in_size as int, alignment as int) == Ok::<
                    int,
                    AllocatorError,
                >(size as int),
                Err(error) => self@.allocation_size(in_size as int, alignment as int) == Err::<
                    int,
                    AllocatorError,
                >(error),
            },
    {
        if !is_power_of_two(alignment) || alignment > MIN_PAGE_ALIGNMENT {
            return Err(AllocatorError::BadRequest);
        }
        let mut size = in_size;
        if alignment > size {
            size = alignment;
        }
        if self.min_block_size > size {
            size = self.min_block_size;
        }
        match checked_next_power_of_two(size) {
            Some(block) => {
                if block > self.capacity {
                    Err(AllocatorError::BadRequest)
                } else {
                    Ok(block)
                }
            },
            None => Err(AllocatorError::BadRequest),
        }
    }

    /// The order that serves a request of `size` bytes at `align`.
    pub fn get_allocation_order(&self, size: usize, align: usize) -> (order: Result<
        usize,
        AllocatorError,
    >)
        requires
            self.wf(),
        ensures
            match order {
                Ok(found) => found < DEPTH && self@.allocation_order(size as int, align as int)
                    == Ok::<int, AllocatorError>(found as int),
                Err(error) => self@.allocation_order(size as int, align as int) == Err::<
                    int,
                    AllocatorError,
                >(error),
            },
    {
        let block = self.get_allocation_size(size, align)?;
        proof {
            lemma_next_power_of_two(
                if size >= align && size >= self.min_block_size {
                    size as int
                } else if align >= self.min_block_size {
                    align as int
                } else {
                    self.min_block_size as int
                },
            );
        }
        let high = exponent_of(block);
        let low = exponent_of(self.min_block_size);
        proof {
            lemma_ceil_log2_of_power(high as nat);
            lemma_ceil_log2_of_power(low as nat);
            if high < low {
                lemma_pow2_strictly_increases(high as nat, low as nat);
            }
            lemma_pow2_adds(low as nat, (DEPTH - 1) as nat);
            if high > low + DEPTH - 1 {
                lemma_pow2_strictly_increases((low + DEPTH - 1) as nat, high as nat);
            }
        }
        Ok((high - low) as usize)
    }

    /// The size of a block of `order`.
    pub fn get_required_block_size(&self, order: usize) -> (size: usize)
        requires
            self.wf(),
            order < DEPTH,
        ensures
            size == self@.block_size(order as int),
    {
        self.block_sizes[order]
    }

    /// Whether `address` lies in the region.
    pub fn contains(&self, address: usize) -> (inside: bool)
        requires
            self.wf(),
        ensures
            inside == self@.contains(address as int),
    {
        self.base <= address && address - self.base < self.capacity
    }

    /// Whether a block of `order` can lie at `address`.
    pub fn is_block(&self, address: usize, order: usize) -> (valid: bool)
        requires
            self.wf(),
        ensures
            valid == self@.valid_block(address as int, order as int),
    {
        if order >= DEPTH || address < self.base {
            return false;
        }
        let size = self.block_sizes[order];
        let offset = address - self.base;
        proof {
            lemma_block_sizes(self@, order as int);
        }
        offset % size == 0 && offset <= self.capacity - size
    }

    /// Frees the upper halves that are left over when `block`, of order
    /// `order`, is cut down to order `target`.
    fn split_block(&mut self, block: usize, order: usize, target: usize)
        requires
            old(self).wf(),
            target <= order < DEPTH,
            old(self)@.valid_block(block as int, order as int),
        ensures
            final(self).wf(),
            final(self).same_region(old(self)),
            final(self)@.lists == Seq::new(
                old(self)@.lists.len(),
                |at: int|
                    if target <= at < order {
                        old(self)@.lists[at].push((block + old(self)@.block_size(at)) as usize)
                    } else {
                        old(self)@.lists[at]
                    },
            ),
    {
        let mut index: usize = order;
        proof {
            assert(self@.lists =~= Seq::new(
                old(self)@.lists.len(),
                |at: int|
                    if index <= at < order {
                        old(self)@.lists[at].push((block + old(self)@.block_size(at)) as usize)
                    } else {
                        old(self)@.lists[at]
                    },
            ));
        }
        while index > target
            invariant
                target <= index <= order < DEPTH,
                self.wf(),
                self.same_region(old(self)),
                old(self).wf(),
                old(self)@.valid_block(block as int, order as int),
                self@.valid_block(block as int, index as int),
                self@.lists == Seq::new(
                    old(self)@.lists.len(),
                    |at: int|
                        if index <= at < order {
                            old(self)@.lists[at].push((block + old(self)@.block_size(at)) as usize)
                        } else {
                            old(self)@.lists[at]
                        },
                ),
            decreases index,
        {
            index -= 1;
            let half = self.block_sizes[index];
            proof {
                lemma_block_sizes(self@, index as int);
                lemma_halves(block - self@.base, half as int, self@.capacity);
            }
            let split = block + half;
            self.block_insert(index, split);
            proof {
                assert(self@.lists =~= Seq::new(
                    old(self)@.lists.len(),
                    |at: int|
                        if index <= at < order {
                            old(self)@.lists[at].push((block + old(self)@.block_size(at)) as usize)
                        } else {
                            old(self)@.lists[at]
                        },
                ));
            }
        }
    }

    /// Serves a request of `size` bytes at `align`: takes the first free block
    /// from the order of the request upwards, frees the upper halves it does
    /// not need, and hands out the rest. `None`, and nothing changed, where the
    /// request cannot be served or no block is free.
    pub fn raw_alloc(&mut self, size: usize, align: usize) -> (address: Option<usize>)
        requires
            old(self).wf(),
        ensures
            final(self).wf(),
            final(self).same_region(old(self)),
            match old(self)@.allocation_order(size as int, align as int) {
                Ok(target) => (address, final(self)@) == old(self)@.allocated(target),
                Err(_) => address is None && final(self)@ == old(self)@,
            },
            address is Some ==> old(self)@.allocation_order(size as int, align as int) is Ok
                && old(self)@.valid_block(
                address.unwrap() as int,
                old(self)@.allocation_order(size as int, align as int).unwrap(),
            ),
    {
        let target = match self.get_allocation_order(size, align) {
            Ok(target) => target,
            Err(_) => {
                return None;
            },
        };
        let mut order = target;
        while order < DEPTH
            invariant
                self@ == old(self)@,
                self.wf(),
                old(self).wf(),
                target <= order <= DEPTH,
                old(self)@.allocation_order(size as int, align as int) == Ok::<int, AllocatorError>(
                    target as int,
                ),
                self@.first_free(target as int) == self@.first_free(order as int),
            decreases DEPTH - order,
        {
            match self.block_pop(order) {
                Some(block) => {
                    let ghost popped = self@;
                    proof {
                        lemma_same_sizes(old(self)@, popped, order as int);
                    }
                    self.split_block(block, order, target);
                    proof {
                        assert forall|at: int| 0 <= at < DEPTH implies popped.block_size(at) == old(
                            self,
                        )@.block_size(at) by {
                            lemma_same_sizes(old(self)@, popped, at);
                        }
                        assert(self@.lists =~= old(self)@.taken(target as int, order as int).lists);
                        lemma_block_sizes(old(self)@, order as int);
                        lemma_block_sizes(old(self)@, target as int);
                        lemma_sub_block(
                            old(self)@,
                            block as int,
                            order as int,
                            target as int,
                        );
                    }
                    return Some(block);
                },
                None => {},
            }
            order += 1;
        }
        None
    }

    /// The buddy of the block of `order` at `block`; `None` for a block that is
    /// the whole region.
    fn find_buddy(&self, order: usize, block: usize) -> (buddy: Option<usize>)
        requires
            self.wf(),
            self@.valid_block(block as int, order as int),
        ensures
            buddy is Some <==> order + 1 < DEPTH,
            buddy is Some ==> buddy.unwrap() == self@.buddy_of(block as int, order as int)
                && self@.valid_block(buddy.unwrap() as int, order as int) && self@.valid_block(
                if block < buddy.unwrap() {
                    block as int
                } else {
                    buddy.unwrap() as int
                },
                order + 1,
            ),
    {
        let relative = block - self.base;
        let size = self.block_sizes[order];
        proof {
            lemma_block_sizes(self@, order as int);
            if order + 1 < DEPTH {
                lemma_buddy(self@, block as int, order as int);
            } else {
                assert(size == self.capacity);
            }
        }
        if size >= self.capacity {
            return None;
        }
        let flipped = (relative as u64) ^ (size as u64);
        Some(self.base + flipped as usize)
    }

    /// Gives back the block at `ptr` that served a request of `size` bytes at
    /// `align`. As long as the block's buddy is free the two are joined into a
    /// block of the next order; what is left at the end goes into the free list
    /// of its order.
    pub fn raw_dealloc(&mut self, ptr: usize, size: usize, align: usize)
        requires
            old(self).wf(),
            old(self)@.allocation_order(size as int, align as int) is Ok,
            old(self)@.valid_block(
                ptr as int,
                old(self)@.allocation_order(size as int, align as int).unwrap(),
            ),
        ensures
            final(self).wf(),
            final(self).same_region(old(self)),
            final(self)@ == old(self)@.released(
                ptr,
                old(self)@.allocation_order(size as int, align as int).unwrap(),
            ),
    {
        let initial = match self.get_allocation_order(size, align) {
            Ok(initial) => initial,
            Err(_) => {
                return ;
            },
        };
        let mut block = ptr;
        let mut order = initial;
        loop
            invariant
                self.wf(),
                self.same_region(old(self)),
                order < DEPTH,
                old(self)@.allocation_order(size as int, align as int) == Ok::<int, AllocatorError>(
                    initial as int,
                ),
                self@.valid_block(block as int, order as int),
                old(self)@.released(ptr, initial as int) == self@.released(block, order as int),
            decreases DEPTH - order,
        {
            let ghost before = self@;
            match self.find_buddy(order, block) {
                Some(buddy) => {
                    assert(buddy == before.buddy_of(block as int, order as int) as usize);
                    if self.block_remove(order, buddy) {
                        proof {
                            assert forall|at: int| 0 <= at < DEPTH implies self@.block_size(at)
                                == before.block_size(at) by {
                                lemma_same_sizes(before, self@, at);
                            }
                            let index = position_from_head(
                                before.lists[order as int],
                                buddy,
                            ).unwrap();
                            assert(before.released(block, order as int) == before.removed(
                                order as int,
                                index,
                            ).released(
                                if block < buddy {
                                    block
                                } else {
                                    buddy
                                },
                                order + 1,
                            ));
                        }
                        if buddy < block {
                            block = buddy;
                        }
                        order += 1;
                        continue ;
                    }
                    assert(before.released(block, order as int) == before.inserted(
                        order as int,
                        block,
                    ));
                },
                None => {
                    assert(before.released(block, order as int) == before.inserted(
                        order as int,
                        block,
                    ));
                },
            }
            self.block_insert(order, block);
            return ;
        }
    }

    /// Gives back the block at `ptr` that held a value of type `T`.
    pub fn dealloc<T>(&mut self, ptr: usize)
        requires
            old(self).wf(),
            old(self)@.allocation_order(
                vstd::layout::size_of::<T>() as int,
                vstd::layout::align_of::<T>() as int,
            ) is Ok,
            old(self)@.valid_block(
                ptr as int,
                old(self)@.allocation_order(
                    vstd::layout::size_of::<T>() as int,
                    vstd::layout::align_of::<T>() as int,
                ).unwrap(),
            ),
        ensures
            final(self).wf(),
            final(self).same_region(old(self)),
            final(self)@ == old(self)@.released(
                ptr,
                old(self)@.allocation_order(
                    vstd::layout::size_of::<T>() as int,
                    vstd::layout::align_of::<T>() as int,
                ).unwrap(),
            ),
    {
        self.raw_dealloc(ptr, core::mem::size_of::<T>(), core::mem::align_of::<T>());
    }

    /// Whether `ptr` can be given back as the block that served a request of
    /// `size` bytes at `align`: the request is one that can be served, and a
    /// block of its order can lie at `ptr`.
    pub fn can_dealloc(&self, ptr: usize, size: usize, align: usize) -> (valid: bool)
        requires
            self.wf(),
        ensures
            valid <==> self@.allocation_order(size as int, align as int) is Ok
                && self@.valid_block(
                ptr as int,
                self@.allocation_order(size as int, align as int).unwrap(),
            ),
    {
        match self.get_allocation_order(size, align) {
            Ok(order) => self.is_block(ptr, order),
            Err(_) => false,
        }
    }

    /// First address of the region.
    pub fn base(&self) -> (base: usize)
        ensures
            base == self@.base,
    {
        self.base
    }

    /// Number of bytes in the region.
    pub fn capacity(&self) -> (capacity: usize)
        ensures
            capacity == self@.capacity,
    {
        self.capacity
    }

    /// Size of the smallest block.
    pub fn min_block_size(&self) -> (size: usize)
        ensures
            size == self@.min_block,
    {
        self.min_block_size
    }

    /// Whether the region is to be released together with the allocator.
    pub fn owns_region(&self) -> (owned: bool)
        ensures
            owned == self@.owned,
    {
        self.owned
    }

    /// The free blocks of `order`, the one that is taken next last.
    pub fn free_blocks(&self, order: usize) -> (blocks: &Vec<usize>)
        requires
            self.wf(),
            order < DEPTH,
        ensures
            blocks@ == self@.lists[order as int],
    {
        &self.freelists[order]
    }

    /// A fresh allocator over a region that somebody else owns and releases.
    pub fn from_existing_allocation(base: usize, capacity: usize) -> (made: Result<
        Self,
        AllocatorError,
    >)
        ensures
            match made {
                Ok(allocator) => can_manage(base as int, capacity as int, DEPTH as int)
                    && allocator.wf() && allocator@ == (BuddyModel {
                    base: base as int,
                    capacity: capacity as int,
                    min_block: min_block_of(capacity as int, DEPTH as int),
                    lists: fresh_lists(base, DEPTH as int),
                    owned: false,
                }),
                Err(error) => error == AllocatorError::BadConstraints && !can_manage(
                    base as int,
                    capacity as int,
                    DEPTH as int,
                ),
            },
    {
        Self::new(base, capacity, false)
    }

    /// A fresh allocator over a region that was obtained for it and is to be
    /// released with it.
    pub fn from_owned_allocation(base: usize, capacity: usize) -> (made: Result<
        Self,
        AllocatorError,
    >)
        ensures
            match made {
                Ok(allocator) => can_manage(base as int, capacity as int, DEPTH as int)
                    && allocator.wf() && allocator@ == (BuddyModel {
                    base: base as int,
                    capacity: capacity as int,
                    min_block: min_block_of(capacity as int, DEPTH as int),
                    lists: fresh_lists(base, DEPTH as int),
                    owned: true,
                }),
                Err(error) => error == AllocatorError::BadConstraints && !can_manage(
                    base as int,
                    capacity as int,
                    DEPTH as int,
                ),
            },
    {
        Self::new(base, capacity, true)
    }
}

/// The least exponent whose power of two reaches a power of two is the
/// exponent of that power.
pub proof fn lemma_ceil_log2_of_power(exponent: nat)
    ensures
        ceil_log2(pow2(exponent) as int) == exponent,
{
    lemma_next_power_of_two_fixed(exponent);
    let found = ceil_log2(pow2(exponent) as int);
    if found < exponent {
        lemma_pow2_strictly_increases(found, exponent);
    } else if found > exponent {
        lemma_pow2_strictly_increases(exponent, found);
    }
}

/// The block sizes of a well-formed allocator: positive powers of two that
/// double from order to order and end at the capacity.
pub proof fn lemma_block_sizes(model: BuddyModel, order: int)
    requires
        model.wf(),
        0 <= order < model.depth(),
    ensures
        0 < model.min_block <= model.block_size(order) <= model.capacity,
        power_of_two(model.block_size(order)),
        order + 1 < model.depth() ==> model.block_size(order + 1) == 2 * model.block_size(order),
        order + 1 < model.depth() ==> model.capacity % (2 * model.block_size(order)) == 0,
        model.capacity % model.block_size(order) == 0,
{
    let low = choose|k: nat| model.min_block == #[trigger] pow2(k);
    let top = (model.depth() - 1) as nat;
    lemma_pow2_pos(low);
    lemma_pow2_pos(order as nat);
    lemma_pow2_adds(low, order as nat);
    lemma_pow2_adds(low, top);
    lemma_pow2_unfold((order + 1) as nat);
    assert(model.min_block * (2 * pow2(order as nat)) == 2 * (model.min_block * pow2(order as nat)))
        by (nonlinear_arith);
    assert(model.min_block <= model.min_block * pow2(order as nat)) by (nonlinear_arith)
        requires
            model.min_block > 0,
            pow2(order as nat) > 0,
    ;
    if order < top {
        lemma_pow2_strictly_increases((low + order) as nat, (low + top) as nat);
        let gap = (top - order - 1) as nat;
        lemma_pow2_adds((low + order + 1) as nat, gap);
        lemma_pow2_adds(low, (order + 1) as nat);
        lemma_pow2_pos(gap);
        let double = 2 * model.block_size(order);
        let single = model.block_size(order);
        let count = pow2(gap) as int;
        assert(model.capacity == double * count);
        assert(model.capacity == count * double) by (nonlinear_arith)
            requires
                model.capacity == double * count,
        ;
        vstd::arithmetic::div_mod::lemma_mod_multiples_basic(count, double);
        assert(model.capacity == (2 * count) * single) by (nonlinear_arith)
            requires
                model.capacity == double * count,
                double == 2 * single,
        ;
        vstd::arithmetic::div_mod::lemma_mod_multiples_basic(2 * count, single);
    } else {
        vstd::arithmetic::div_mod::lemma_mod_self_0(model.capacity);
    }
    assert(power_of_two(model.block_size(order))) by {
        assert(model.block_size(order) == pow2((low + order) as nat));
    }
}

/// Two allocators over the same region have the same block sizes.
pub proof fn lemma_same_sizes(one: BuddyModel, other: BuddyModel, order: int)
    requires
        one.min_block == other.min_block,
    ensures
        one.block_size(order) == other.block_size(order),
{
}

/// The upper half of a block is a block of half the size, and so is the lower.
pub proof fn lemma_halves(relative: int, half: int, capacity: int)
    requires
        0 <= relative,
        0 < half,
        relative % (2 * half) == 0,
        relative + 2 * half <= capacity,
    ensures
        relative % half == 0,
        (relative + half) % half == 0,
        relative + half + half <= capacity,
{
    let count = relative / (2 * half);
    vstd::arithmetic::div_mod::lemma_fundamental_div_mod(relative, 2 * half);
    assert(relative == (2 * count) * half) by (nonlinear_arith)
        requires
            relative == (2 * half) * count,
    ;
    vstd::arithmetic::div_mod::lemma_mod_multiples_basic(2 * count, half);
    assert(relative + half == (2 * count + 1) * half) by (nonlinear_arith)
        requires
            relative == (2 * count) * half,
    ;
    vstd::arithmetic::div_mod::lemma_mod_multiples_basic(2 * count + 1, half);
}

/// A block of one order begins a block of every lower order.
pub proof fn lemma_sub_block(model: BuddyModel, block: int, order: int, target: int)
    requires
        model.wf(),
        0 <= target <= order < model.depth(),
        model.valid_block(block, order),
    ensures
        model.valid_block(block, target),
    decreases order - target,
{
    if target < order {
        lemma_block_sizes(model, order - 1);
        lemma_halves(block - model.base, model.block_size(order - 1), model.capacity);
        lemma_sub_block(model, block, order - 1, target);
    }
}

/// Two neighbouring blocks of one size, the first at an even multiple of the
/// size, make a block of twice the size.
pub proof fn lemma_merge(relative: int, size: int, capacity: int)
    requires
        0 <= relative,
        0 < size,
        relative % size == 0,
        relative + size <= capacity,
        capacity % (2 * size) == 0,
    ensures
        (relative / size) % 2 == 0 ==> relative % (2 * size) == 0 && relative + 2 * size
            <= capacity && (relative + size) % size == 0,
        (relative / size) % 2 != 0 ==> (relative - size) % (2 * size) == 0 && relative - size >= 0
            && (relative - size) % size == 0,
{
    let count = relative / size;
    vstd::arithmetic::div_mod::lemma_fundamental_div_mod(relative, size);
    let pairs = capacity / (2 * size);
    vstd::arithmetic::div_mod::lemma_fundamental_div_mod(capacity, 2 * size);
    assert(relative == size * count);
    if count % 2 == 0 {
        let half = count / 2;
        assert(relative == half * (2 * size)) by (nonlinear_arith)
            requires
                relative == size * count,
                count == 2 * half,
        ;
        vstd::arithmetic::div_mod::lemma_mod_multiples_basic(half, 2 * size);
        assert(half < pairs) by (nonlinear_arith)
            requires
                half * (2 * size) + size <= (2 * size) * pairs,
                size > 0,
        ;
        assert(relative + 2 * size <= capacity) by (nonlinear_arith)
            requires
                relative == half * (2 * size),
                capacity == (2 * size) * pairs,
                half < pairs,
                size > 0,
        ;
        assert(relative + size == (count + 1) * size) by (nonlinear_arith)
            requires
                relative == size * count,
        ;
        vstd::arithmetic::div_mod::lemma_mod_multiples_basic(count + 1, size);
    } else {
        let half = (count - 1) / 2;
        assert(count >= 1);
        assert(relative - size == half * (2 * size)) by (nonlinear_arith)
            requires
                relative == size * count,
                count == 2 * half + 1,
        ;
        vstd::arithmetic::div_mod::lemma_mod_multiples_basic(half, 2 * size);
        assert(relative - size == (count - 1) * size) by (nonlinear_arith)
            requires
                relative == size * count,
        ;
        vstd::arithmetic::div_mod::lemma_mod_multiples_basic(count - 1, size);
        assert(relative - size >= 0) by (nonlinear_arith)
            requires
                relative == size * count,
                count >= 1,
                size > 0,
        ;
    }
}

/// Flipping the bit of a power of two in a multiple of that power adds the
/// power to an even multiple and takes it from an odd one.
pub proof fn lemma_flip(relative: u64, exponent: u64)
    requires
        exponent < 63,
        relative % (1u64 << exponent) == 0,
        relative <= 0x7FFF_FFFF_FFFF_FFFF,
    ensures
        (relative / (1u64 << exponent)) % 2 == 0 ==> relative ^ (1u64 << exponent) == relative + (
        1u64 << exponent),
        (relative / (1u64 << exponent)) % 2 != 0 ==> relative ^ (1u64 << exponent) == relative - (
        1u64 << exponent),
{
    assert((relative / (1u64 << exponent)) % 2 == 0 ==> relative ^ (1u64 << exponent) == relative
        + (1u64 << exponent)) by (bit_vector)
        requires
            exponent < 63,
            relative % (1u64 << exponent) == 0,
            relative <= 0x7FFF_FFFF_FFFF_FFFF,
    ;
    assert((relative / (1u64 << exponent)) % 2 != 0 ==> relative ^ (1u64 << exponent) == relative
        - (1u64 << exponent)) by (bit_vector)
        requires
            exponent < 63,
            relative % (1u64 << exponent) == 0,
            relative <= 0x7FFF_FFFF_FFFF_FFFF,
    ;
}

/// The buddy of a block that is smaller than the region: the block after it
/// where the block lies at an even multiple of its size, the block before it
/// otherwise. The buddy is a block of the same order, and the lower of the two
/// is a block of the next order.
pub proof fn lemma_buddy(model: BuddyModel, block: int, order: int)
    requires
        model.wf(),
        model.valid_block(block, order),
        order + 1 < model.depth(),
    ensures
        ({
            let relative = block - model.base;
            let size = model.block_size(order);
            let buddy = model.buddy_of(block, order);
            &&& buddy == if (relative / size) % 2 == 0 {
                block + size
            } else {
                block - size
            }
            &&& model.valid_block(buddy, order)
            &&& model.valid_block(
                if block < buddy {
                    block
                } else {
                    buddy
                },
                order + 1,
            )
        }),
{
    let relative = block - model.base;
    let size = model.block_size(order);
    lemma_block_sizes(model, order);
    lemma_block_sizes(model, order + 1);
    let exponent = choose|k: nat| size == #[trigger] pow2(k);
    lemma_pow2_unfold(exponent + 1);
    vstd::arithmetic::power2::lemma2_to64();
    vstd::arithmetic::power2::lemma2_to64_rest();
    if exponent >= 63 {
        if exponent > 63 {
            lemma_pow2_strictly_increases(63, exponent);
        }
    }
    assert(exponent < 63);
    lemma_block_sizes(model, model.depth() - 1);
    let top = choose|k: nat| model.capacity == #[trigger] pow2(k);
    if top > 64 {
        lemma_pow2_strictly_increases(64, top);
    }
    assert(top < 64);
    if top < 63 {
        lemma_pow2_strictly_increases(top, 63);
    }
    assert(model.capacity <= 0x8000_0000_0000_0000);
    vstd::bits::lemma_u64_shl_is_mul(1, exponent as u64);
    assert((1u64 << (exponent as u64)) == size);
    lemma_flip(relative as u64, exponent as u64);
    lemma_merge(relative, size, model.capacity);
}

/// Halving a power of two `halved` times, stopping early only at one, gives
/// the quotient by the power of two of `wanted` where all halvings were made,
/// and leaves a quotient of zero where they were not.
proof fn lemma_min_block(exponent: nat, halved: nat, wanted: nat)
    requires
        halved <= wanted,
        halved <= exponent,
        halved < wanted ==> halved == exponent,
    ensures
        halved == wanted ==> pow2(exponent) as int / (pow2(wanted) as int) == pow2(
            (exponent - halved) as nat,
        ),
        halved < wanted ==> pow2(exponent) as int / (pow2(wanted) as int) == 0,
{
    lemma_pow2_pos(wanted);
    lemma_pow2_pos(exponent);
    if halved == wanted {
        let low = (exponent - halved) as nat;
        lemma_pow2_adds(low, wanted);
        lemma_pow2_pos(low);
        assert((pow2(low) * pow2(wanted)) as int / (pow2(wanted) as int) == pow2(low)) by {
            vstd::arithmetic::div_mod::lemma_div_multiples_vanish(
                pow2(low) as int,
                pow2(wanted) as int,
            );
        }
    } else {
        lemma_pow2_strictly_increases(exponent, wanted);
        vstd::arithmetic::div_mod::lemma_basic_div(pow2(exponent) as int, pow2(wanted) as int);
    }
}

} // verus!
