//! The heap: one region divided into an infant arena, two teen pools and an
//! adult pool, which are told apart by address alone.

use crate::memory::allocators::arena::{ArenaAllocator, ArenaModel};
use crate::memory::allocators::blocks::{checked_next_power_of_two, next_power_of_two};
use crate::memory::allocators::general::{
    can_manage, fresh_lists, min_block_of, BuddyModel, GeneralAllocator,
};
use crate::memory::allocators::AllocatorError;
use vstd::prelude::*;

verus! {

/// What the base of the heap's region must be a multiple of.
pub const HEAP_ALIGN: usize = 4096;

/// Number of teen pools.
pub const TEEN_COUNT: usize = 2;

/// Number of orders of each teen pool.
pub const TEEN_ALLOCATOR_DEPTH: usize = 16;

/// Number of orders of the adult pool.
pub const ADULT_ALLOCATOR_DEPTH: usize = 16;

/// Two parts of a whole, as weights.
#[derive(Clone, Copy, Debug)]
pub struct Ratio(pub u32, pub u32);

/// How the heap is divided between the young pools and the adult pool.
pub fn young_old_ratio() -> (ratio: Ratio)
    ensures
        ratio.0 == 1,
        ratio.1 == 2,
{
    Ratio(1, 2)
}

/// How the young part is divided between the infant arena and the teen pools.
pub fn infant_teen_ratio() -> (ratio: Ratio)
    ensures
        ratio.0 == 15,
        ratio.1 == 1,
{
    Ratio(15, 1)
}

/// The first part of `value` divided by the weights `first` and `second`:
/// the exact share rounded to the nearest integer, halves upwards. Weights
/// that are both zero give the first part nothing.
pub open spec fn first_share(first: int, second: int, value: int) -> int {
    if first + second == 0 {
        0
    } else {
        (2 * first * value + (first + second)) / (2 * (first + second))
    }
}

impl Ratio {
    /// Divides `value` by the two weights. The parts add up to `value`.
    pub fn split(&self, value: usize) -> (parts: (usize, usize))
        ensures
            parts.0 == first_share(self.0 as int, self.1 as int, value as int),
            parts.0 + parts.1 == value,
    {
        let total: u128 = self.0 as u128 + self.1 as u128;
        if total == 0 {
            return (0, value);
        }
        assert(2 * (self.0 as int) * (value as int) <= 2 * 0xFFFF_FFFF * 0xFFFF_FFFF_FFFF_FFFF)
            by (nonlinear_arith)
            requires
                0 <= self.0 <= 0xFFFF_FFFF,
                0 <= value <= 0xFFFF_FFFF_FFFF_FFFF,
        ;
        let doubled: u128 = 2 * (self.0 as u128) * (value as u128);
        let share: u128 = (doubled + total) / (2 * total);
        assert(share <= value) by (nonlinear_arith)
            requires
                share == (2 * (self.0 as int) * (value as int) + total) / (2 * total),
                total == self.0 + self.1,
                total > 0,
                0 <= self.1,
                0 <= self.0,
                0 <= value,
        ;
        let first = share as usize;
        (first, value - first)
    }
}

/// The pool an address belongs to.
#[derive(Clone, Copy, Debug, PartialEq, Eq, Structural)]
pub enum PoolType {
    /// The infant arena.
    Infant,
    /// The teen pool of the given index.
    Teen(usize),
    /// The adult pool.
    Adult,
}

/// Why a heap could not be set up.
#[derive(Clone, Copy, Debug, PartialEq, Eq, Structural)]
pub enum HeapError {
    /// Size and alignment of the region make no layout.
    InvalidLayout,
    /// A pool could not be set up.
    CannotProvision(AllocatorError),
}

/// The sizes of the heap's parts.
#[derive(Clone, Copy, Debug, PartialEq, Eq, Structural)]
pub struct HeapPlan {
    /// Bytes of the infant arena.
    pub infant_capacity: usize,
    /// Bytes of all teen pools together.
    pub teen_capacity: usize,
    /// Bytes of the adult pool.
    pub adult_capacity: usize,
    /// Bytes of the whole region.
    pub total_capacity: usize,
}

/// The sizes of the parts of a heap for `capacity` bytes, before any limit of
/// the machine: a third of the capacity is young, a sixteenth of the young
/// part is teen, and each part is rounded up to a power of two.
pub open spec fn planned(capacity: int) -> (int, int, int) {
    let young = first_share(1, 2, capacity);
    let old = capacity - young;
    let infant = first_share(15, 1, young);
    let teen = young - infant;
    (next_power_of_two(infant), next_power_of_two(teen), next_power_of_two(old))
}

/// Plans the parts of a heap for `capacity` bytes. `InvalidHeapSize` where a
/// part or their sum is more than an address can count.
pub fn plan_heap(capacity: usize) -> (plan: Result<HeapPlan, HeapError>)
    ensures
        match plan {
            Ok(sizes) => planned(capacity as int) == (
                sizes.infant_capacity as int,
                sizes.teen_capacity as int,
                sizes.adult_capacity as int,
            ) && sizes.total_capacity == sizes.infant_capacity + sizes.teen_capacity
                + sizes.adult_capacity,
            Err(error) => error == HeapError::CannotProvision(AllocatorError::InvalidHeapSize)
                && planned(capacity as int).0 + planned(capacity as int).1 + planned(
                capacity as int,
            ).2 > usize::MAX,
        },
{
    let (young_init, old_init) = young_old_ratio().split(capacity);
    let (infant_init, teen_init) = infant_teen_ratio().split(young_init);
    proof {
        crate::memory::allocators::blocks::lemma_next_power_of_two(infant_init as int);
        crate::memory::allocators::blocks::lemma_next_power_of_two(teen_init as int);
        crate::memory::allocators::blocks::lemma_next_power_of_two(old_init as int);
    }
    let failed = Err(HeapError::CannotProvision(AllocatorError::InvalidHeapSize));
    let infant_capacity = match checked_next_power_of_two(infant_init) {
        Some(size) => size,
        None => {
            return failed;
        },
    };
    let teen_capacity = match checked_next_power_of_two(teen_init) {
        Some(size) => size,
        None => {
            return failed;
        },
    };
    let adult_capacity = match checked_next_power_of_two(old_init) {
        Some(size) => size,
        None => {
            return failed;
        },
    };
    if teen_capacity > usize::MAX - infant_capacity || adult_capacity > usize::MAX
        - infant_capacity - teen_capacity {
        return failed;
    }
    Ok(
        HeapPlan {
            infant_capacity,
            teen_capacity,
            adult_capacity,
            total_capacity: infant_capacity + teen_capacity + adult_capacity,
        },
    )
}

/// The heap: an infant arena, then the teen pools, then the adult pool, one
/// after the other in one region.
#[derive(Debug)]
pub struct Heap {
    base: usize,
    infant: ArenaAllocator,
    teen: Vec<GeneralAllocator<TEEN_ALLOCATOR_DEPTH>>,
    adult: GeneralAllocator<ADULT_ALLOCATOR_DEPTH>,
}

/// A heap as plain values.
pub struct HeapModel {
    pub base: int,
    pub infant: ArenaModel,
    pub teen: Seq<BuddyModel>,
    pub adult: BuddyModel,
}

impl HeapModel {
    /// The pool that `address` lies in: the infant arena, else the first teen
    /// pool that holds it, else the adult pool, else none.
    pub open spec fn pool_of(self, address: int) -> Option<PoolType> {
        if self.infant.contains(address) {
            Some(PoolType::Infant)
        } else if self.teen[0].contains(address) {
            Some(PoolType::Teen(0))
        } else if self.teen[1].contains(address) {
            Some(PoolType::Teen(1))
        } else if self.adult.contains(address) {
            Some(PoolType::Adult)
        } else {
            None
        }
    }

    /// How many pools `address` lies in.
    pub open spec fn pools_holding(self, address: int) -> int {
        (if self.infant.contains(address) {
            1int
        } else {
            0int
        }) + (if self.teen[0].contains(address) {
            1int
        } else {
            0int
        }) + (if self.teen[1].contains(address) {
            1int
        } else {
            0int
        }) + (if self.adult.contains(address) {
            1int
        } else {
            0int
        })
    }

    /// The pools lie one after the other without gap or overlap: the infant
    /// arena at the base, then the teen pools, then the adult pool; and each
    /// pool's books are in order.
    pub open spec fn wf(self) -> bool {
        &&& self.teen.len() == TEEN_COUNT
        &&& self.infant.wf()
        &&& self.teen[0].wf()
        &&& self.teen[1].wf()
        &&& self.adult.wf()
        &&& self.teen[0].depth() == TEEN_ALLOCATOR_DEPTH
        &&& self.teen[1].depth() == TEEN_ALLOCATOR_DEPTH
        &&& self.adult.depth() == ADULT_ALLOCATOR_DEPTH
        &&& self.infant.base == self.base
        &&& self.teen[0].base == self.infant.base + self.infant.capacity
        &&& self.teen[1].base == self.teen[0].base + self.teen[0].capacity
        &&& self.adult.base == self.teen[1].base + self.teen[1].capacity
    }

    /// The heap after giving back `ptr` as what served a request of `size`
    /// bytes at `align`: a block of a teen pool or of the adult pool goes back
    /// to its pool; anything else changes nothing.
    pub open spec fn after_dealloc(self, ptr: usize, size: int, align: int) -> HeapModel {
        match self.pool_of(ptr as int) {
            Some(PoolType::Teen(index)) => {
                let pool = self.teen[index as int];
                match pool.allocation_order(size, align) {
                    Ok(order) => if pool.valid_block(ptr as int, order) {
                        HeapModel {
                            teen: self.teen.update(index as int, pool.released(ptr, order)),
                            ..self
                        }
                    } else {
                        self
                    },
                    Err(_) => self,
                }
            },
            Some(PoolType::Adult) => match self.adult.allocation_order(size, align) {
                Ok(order) => if self.adult.valid_block(ptr as int, order) {
                    HeapModel { adult: self.adult.released(ptr, order), ..self }
                } else {
                    self
                },
                Err(_) => self,
            },
            _ => self,
        }
    }
}

/// The heap that is set up at `base` with the parts of `plan`: an empty arena
/// and fresh pools.
pub open spec fn fresh_heap(base: usize, plan: HeapPlan) -> HeapModel {
    let teen_base = (base + plan.infant_capacity) as usize;
    let half = plan.teen_capacity / 2;
    let adult_base = (teen_base + plan.teen_capacity) as usize;
    HeapModel {
        base: base as int,
        infant: ArenaModel {
            base: base as int,
            capacity: plan.infant_capacity as int,
            head_offset: 0,
            owned: false,
        },
        teen: seq![
            BuddyModel {
                base: teen_base as int,
                capacity: half as int,
                min_block: min_block_of(half as int, TEEN_ALLOCATOR_DEPTH as int),
                lists: fresh_lists(teen_base, TEEN_ALLOCATOR_DEPTH as int),
                owned: false,
            },
            BuddyModel {
                base: teen_base + half,
                capacity: half as int,
                min_block: min_block_of(half as int, TEEN_ALLOCATOR_DEPTH as int),
                lists: fresh_lists((teen_base + half) as usize, TEEN_ALLOCATOR_DEPTH as int),
                owned: false,
            },
        ],
        adult: BuddyModel {
            base: adult_base as int,
            capacity: plan.adult_capacity as int,
            min_block: min_block_of(plan.adult_capacity as int, ADULT_ALLOCATOR_DEPTH as int),
            lists: fresh_lists(adult_base, ADULT_ALLOCATOR_DEPTH as int),
            owned: false,
        },
    }
}

/// Whether a heap with the parts of `plan` can be set up at `base`: the
/// region ends within the address space, and each teen pool, of half the teen
/// part, and the adult pool can manage their parts.
pub open spec fn can_provision(base: int, plan: HeapPlan) -> bool {
    let teen_base = base + plan.infant_capacity;
    let half = plan.teen_capacity as int / 2;
    &&& base + plan.total_capacity <= usize::MAX
    &&& plan.total_capacity == plan.infant_capacity + plan.teen_capacity + plan.adult_capacity
    &&& plan.teen_capacity % 2 == 0
    &&& can_manage(teen_base, half, TEEN_ALLOCATOR_DEPTH as int)
    &&& can_manage(teen_base + half, half, TEEN_ALLOCATOR_DEPTH as int)
    &&& can_manage(
        teen_base + plan.teen_capacity,
        plan.adult_capacity as int,
        ADULT_ALLOCATOR_DEPTH as int,
    )
}

impl View for Heap {
    type V = HeapModel;

    closed spec fn view(&self) -> HeapModel {
        HeapModel {
            base: self.base as int,
            infant: self.infant@,
            teen: Seq::new(self.teen@.len(), |i: int| self.teen@[i]@),
            adult: self.adult@,
        }
    }
}

impl Heap {
    /// Every pool is well formed.
    pub closed spec fn pools_wf(&self) -> bool {
        &&& self.teen@.len() == TEEN_COUNT
        &&& self.infant.wf()
        &&& self.teen@[0].wf()
        &&& self.teen@[1].wf()
        &&& self.adult.wf()
    }

    /// The heap's books are in order.
    pub open spec fn wf(&self) -> bool {
        &&& self.pools_wf()
        &&& self@.wf()
    }

    /// Sets up a heap with the parts of `plan` over the region at `base`,
    /// which somebody else owns and releases. `BadConstraints` where the
    /// region or one of the pools does not meet what a pool asks for.
    pub fn from_existing_allocation(base: usize, plan: HeapPlan) -> (made: Result<Self, HeapError>)
        ensures
            match made {
                Ok(heap) => can_provision(base as int, plan) && heap.wf() && heap@ == fresh_heap(
                    base,
                    plan,
                ),
                Err(error) => error == HeapError::CannotProvision(AllocatorError::BadConstraints)
                    && !can_provision(base as int, plan),
            },
    {
        let failed = Err(HeapError::CannotProvision(AllocatorError::BadConstraints));
        if plan.infant_capacity > usize::MAX - base || plan.teen_capacity > usize::MAX - base
            - plan.infant_capacity || plan.adult_capacity > usize::MAX - base
            - plan.infant_capacity - plan.teen_capacity {
            return failed;
        }
        if plan.total_capacity != plan.infant_capacity + plan.teen_capacity + plan.adult_capacity
            || plan.teen_capacity % 2 != 0 {
            return failed;
        }
        let infant_base = base;
        let teen_base = infant_base + plan.infant_capacity;
        let adult_base = teen_base + plan.teen_capacity;
        let half = plan.teen_capacity / TEEN_COUNT;
        let infant = ArenaAllocator::from_existing_allocation(infant_base, plan.infant_capacity);
        let first = match GeneralAllocator::<TEEN_ALLOCATOR_DEPTH>::from_existing_allocation(
            teen_base,
            half,
        ) {
            Ok(pool) => pool,
            Err(_) => {
                return failed;
            },
        };
        let second = match GeneralAllocator::<TEEN_ALLOCATOR_DEPTH>::from_existing_allocation(
            teen_base + half,
            half,
        ) {
            Ok(pool) => pool,
            Err(_) => {
                return failed;
            },
        };
        let adult = match GeneralAllocator::<ADULT_ALLOCATOR_DEPTH>::from_existing_allocation(
            adult_base,
            plan.adult_capacity,
        ) {
            Ok(pool) => pool,
            Err(_) => {
                return failed;
            },
        };
        let mut teen: Vec<GeneralAllocator<TEEN_ALLOCATOR_DEPTH>> = Vec::new();
        teen.push(first);
        teen.push(second);
        let heap = Heap { base, infant, teen, adult };
        proof {
            assert(heap@.teen =~= fresh_heap(base, plan).teen);
        }
        Ok(heap)
    }

    /// Hands out `size` bytes at `align` from the infant arena. Where the
    /// arena has no room a minor collection would make some; there is none yet,
    /// so the second attempt fails like the first, and `None` is the answer.
    /// The teen pools and the adult pool never serve a request directly.
    pub fn raw_alloc(&mut self, size: usize, align: usize) -> (address: Option<usize>)
        requires
            old(self).wf(),
        ensures
            final(self).wf(),
            final(self)@.base == old(self)@.base,
            final(self)@.teen == old(self)@.teen,
            final(self)@.adult == old(self)@.adult,
            match address {
                Some(given) => old(self)@.infant.fits(size as int, align as int) && given == old(
                    self,
                )@.infant.base + old(self)@.infant.head_offset && final(self)@.infant == old(
                    self,
                )@.infant.bumped(size as int, align as int) && final(self)@.pools_holding(
                    given as int,
                ) == 1,
                None => !old(self)@.infant.fits(size as int, align as int) && final(self)@ == old(
                    self,
                )@,
            },
    {
        let ptr = self.infant.raw_alloc(size, align);
        if ptr.is_some() {
            proof {
                lemma_one_pool(self@, ptr.unwrap() as int);
            }
            return ptr;
        }
        // A minor collection belongs here.
        let retried = self.infant.raw_alloc(size, align);
        proof {
            assert(retried is None);
        }
        retried
    }

    /// The pool that `ptr` lies in, if any.
    pub fn get_pool(&self, ptr: usize) -> (pool: Option<PoolType>)
        requires
            self.wf(),
        ensures
            pool == self@.pool_of(ptr as int),
    {
        if self.infant.contains(ptr) {
            Some(PoolType::Infant)
        } else if self.teen[0].contains(ptr) {
            Some(PoolType::Teen(0))
        } else if self.teen[1].contains(ptr) {
            Some(PoolType::Teen(1))
        } else if self.adult.contains(ptr) {
            Some(PoolType::Adult)
        } else {
            None
        }
    }

    /// Gives back `ptr` as what served a request of `size` bytes at `align`.
    /// A block of a teen pool or of the adult pool goes back to its pool. An
    /// address of the infant arena, which is released as a whole, an address
    /// outside the heap, and an address that is no block of its pool change
    /// nothing.
    pub fn raw_dealloc(&mut self, ptr: usize, size: usize, align: usize)
        requires
            old(self).wf(),
        ensures
            final(self).wf(),
            final(self)@ == old(self)@.after_dealloc(ptr, size as int, align as int),
    {
        match self.get_pool(ptr) {
            None | Some(PoolType::Infant) => {},
            Some(PoolType::Teen(index)) => {
                if self.teen[index].can_dealloc(ptr, size, align) {
                    self.teen[index].raw_dealloc(ptr, size, align);
                    proof {
                        assert(self@.teen =~= old(self)@.teen.update(
                            index as int,
                            self@.teen[index as int],
                        ));
                    }
                }
            },
            Some(PoolType::Adult) => {
                if self.adult.can_dealloc(ptr, size, align) {
                    self.adult.raw_dealloc(ptr, size, align);
                }
            },
        }
    }

    /// Gives back `ptr` as what held a value of type `T`.
    pub fn dealloc<T>(&mut self, ptr: usize)
        requires
            old(self).wf(),
        ensures
            final(self).wf(),
            final(self)@ == old(self)@.after_dealloc(
                ptr,
                vstd::layout::size_of::<T>() as int,
                vstd::layout::align_of::<T>() as int,
            ),
    {
        self.raw_dealloc(ptr, core::mem::size_of::<T>(), core::mem::align_of::<T>());
    }

    /// First address of the heap's region.
    pub fn base(&self) -> (base: usize)
        ensures
            base == self@.base,
    {
        self.base
    }

    /// The infant arena.
    pub fn infant(&self) -> (arena: &ArenaAllocator)
        ensures
            arena@ == self@.infant,
    {
        &self.infant
    }

    /// The teen pool of the given index.
    pub fn teen(&self, index: usize) -> (pool: &GeneralAllocator<TEEN_ALLOCATOR_DEPTH>)
        requires
            self.wf(),
            index < TEEN_COUNT,
        ensures
            pool@ == self@.teen[index as int],
            pool.wf(),
    {
        &self.teen[index]
    }

    /// The adult pool.
    pub fn adult(&self) -> (pool: &GeneralAllocator<ADULT_ALLOCATOR_DEPTH>)
        requires
            self.wf(),
        ensures
            pool@ == self@.adult,
            pool.wf(),
    {
        &self.adult
    }
}

/// Heap disjointness: every address of a well-formed heap's region lies in
/// exactly one pool, and every other address in none.
pub proof fn lemma_one_pool(heap: HeapModel, address: int)
    requires
        heap.wf(),
    ensures
        heap.base <= address < heap.adult.base + heap.adult.capacity ==> heap.pools_holding(address)
            == 1,
        !(heap.base <= address < heap.adult.base + heap.adult.capacity) ==> heap.pools_holding(
            address,
        ) == 0,
        heap.pools_holding(address) == 1 <==> heap.pool_of(address) is Some,
        heap.base + heap.infant.capacity < heap.adult.base + heap.adult.capacity,
{
    crate::memory::allocators::general::lemma_block_sizes(
        heap.teen[0],
        TEEN_ALLOCATOR_DEPTH as int - 1,
    );
    crate::memory::allocators::general::lemma_block_sizes(
        heap.teen[1],
        TEEN_ALLOCATOR_DEPTH as int - 1,
    );
    crate::memory::allocators::general::lemma_block_sizes(
        heap.adult,
        ADULT_ALLOCATOR_DEPTH as int - 1,
    );
}

} // verus!
