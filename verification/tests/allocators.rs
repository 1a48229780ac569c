use azimuth::memory::allocators::arena::ArenaAllocator;
use azimuth::memory::allocators::blocks::{
    checked_next_power_of_two, exponent_of, is_power_of_two, round_up,
};
use azimuth::memory::allocators::general::GeneralAllocator;
use azimuth::memory::allocators::AllocatorError;
use azimuth::memory::heap::{plan_heap, Heap, HeapError, HeapPlan, PoolType, Ratio};

const CAPACITY: usize = 1 << 16;
const DEPTH: usize = 8;
const BASE: usize = 0x10_0000;

fn lists<const N: usize>(allocator: &GeneralAllocator<N>) -> Vec<Vec<usize>> {
    (0..N).map(|order| allocator.free_blocks(order).clone()).collect()
}

#[test]
fn create_from_existing() {
    let base = vec![0u8; CAPACITY];
    let _ = GeneralAllocator::<DEPTH>::from_existing_allocation(base.as_ptr() as usize, CAPACITY);

    // Maybe test some allocations here
}

#[test]
fn powers_of_two() {
    assert!(!is_power_of_two(0));
    assert!(is_power_of_two(1));
    assert!(is_power_of_two(2));
    assert!(!is_power_of_two(3));
    assert!(is_power_of_two(4096));
    assert!(!is_power_of_two(4097));
    assert!(is_power_of_two(1 << (usize::BITS - 1)));
    assert!(!is_power_of_two(usize::MAX));
    assert_eq!(checked_next_power_of_two(0), Some(1));
    assert_eq!(checked_next_power_of_two(1), Some(1));
    assert_eq!(checked_next_power_of_two(3), Some(4));
    assert_eq!(checked_next_power_of_two(4), Some(4));
    assert_eq!(checked_next_power_of_two(5), Some(8));
    assert_eq!(checked_next_power_of_two(1 << (usize::BITS - 1)), Some(1 << (usize::BITS - 1)));
    assert_eq!(checked_next_power_of_two((1 << (usize::BITS - 1)) + 1), None);
    assert_eq!(checked_next_power_of_two(usize::MAX), None);
    assert_eq!(exponent_of(1), 0);
    assert_eq!(exponent_of(8), 3);
    assert_eq!(exponent_of(1 << 40), 40);
    for x in 0..200usize {
        assert_eq!(is_power_of_two(x), x.is_power_of_two());
        assert_eq!(checked_next_power_of_two(x), x.checked_next_power_of_two());
    }
}

#[test]
fn rounding_up_to_a_multiple() {
    assert_eq!(round_up(0, 8), Some(0));
    assert_eq!(round_up(1, 8), Some(8));
    assert_eq!(round_up(8, 8), Some(8));
    assert_eq!(round_up(9, 8), Some(16));
    assert_eq!(round_up(10, 3), Some(12));
    assert_eq!(round_up(10, 0), None);
    assert_eq!(round_up(usize::MAX, 2), None);
    assert_eq!(round_up(usize::MAX, 1), Some(usize::MAX));
}

#[test]
fn arena_hands_out_addresses_in_turn() {
    let mut arena = ArenaAllocator::from_existing_allocation(BASE, 1024);
    assert_eq!(arena.base(), BASE);
    assert_eq!(arena.capacity(), 1024);
    assert!(!arena.owns_region());
    assert_eq!(arena.raw_alloc(24, 8), Some(BASE));
    assert_eq!(arena.raw_alloc(1, 1), Some(BASE + 24));
    assert_eq!(arena.raw_alloc(5, 4), Some(BASE + 25));
    assert_eq!(arena.raw_alloc(16, 16), Some(BASE + 33));
    assert_eq!(arena.used(), 49);
    assert!(arena.contains(BASE));
    assert!(arena.contains(BASE + 1023));
    assert!(!arena.contains(BASE + 1024));
    assert!(!arena.contains(BASE - 1));
    assert!(ArenaAllocator::from_owned_allocation(BASE, 8).owns_region());
}

#[test]
fn arena_release_gives_the_first_address_again() {
    let mut arena = ArenaAllocator::from_existing_allocation(BASE, 1024);
    let first = arena.raw_alloc(16, 8).unwrap();
    arena.release_all();
    assert_eq!(arena.used(), 0);
    let second = arena.raw_alloc(16, 8).unwrap();
    assert_eq!(first, second);
}

#[test]
fn arena_refuses_what_does_not_fit() {
    let mut arena = ArenaAllocator::from_existing_allocation(BASE, 1024);
    assert_eq!(arena.raw_alloc(1024, 1), Some(BASE));
    assert_eq!(arena.raw_alloc(4, 4), None);
    assert_eq!(arena.used(), 1024);
    assert_eq!(arena.raw_alloc(0, 4), Some(BASE + 1024));
    arena.release_all();
    assert_eq!(arena.raw_alloc(4, 4), Some(BASE));
    assert_eq!(arena.raw_alloc(1021, 4), None);
    assert_eq!(arena.raw_alloc(4, 0), None);
    assert_eq!(arena.raw_alloc(usize::MAX, 8), None);
    assert_eq!(arena.used(), 4);
}

#[test]
fn buddy_construction_constraints() {
    let bad = Some(AllocatorError::BadConstraints);
    assert!(GeneralAllocator::<DEPTH>::from_existing_allocation(BASE, CAPACITY).is_ok());
    assert_eq!(GeneralAllocator::<DEPTH>::from_existing_allocation(BASE + 8, CAPACITY).err(), bad);
    assert_eq!(GeneralAllocator::<DEPTH>::from_existing_allocation(BASE, CAPACITY - 1).err(), bad);
    assert_eq!(GeneralAllocator::<DEPTH>::from_existing_allocation(BASE, 0).err(), bad);
    assert_eq!(GeneralAllocator::<DEPTH>::from_existing_allocation(BASE, 512).err(), bad);
    assert!(GeneralAllocator::<DEPTH>::from_existing_allocation(BASE, 1024).is_ok());
    assert_eq!(GeneralAllocator::<0>::from_existing_allocation(BASE, 1024).err(), bad);
    assert_eq!(GeneralAllocator::<100>::from_existing_allocation(BASE, 1024).err(), bad);
    assert!(GeneralAllocator::<1>::from_existing_allocation(BASE, 8).is_ok());
    assert_eq!(
        GeneralAllocator::<1>::from_existing_allocation(usize::MAX - 4094, 1 << 12).err(),
        bad
    );
    let allocator = GeneralAllocator::<DEPTH>::from_existing_allocation(BASE, CAPACITY).unwrap();
    assert_eq!(allocator.min_block_size(), 512);
    assert_eq!(allocator.base(), BASE);
    assert_eq!(allocator.capacity(), CAPACITY);
    assert!(!allocator.owns_region());
    assert!(GeneralAllocator::<DEPTH>::from_owned_allocation(BASE, CAPACITY).unwrap().owns_region());
    let mut fresh = vec![vec![]; DEPTH];
    fresh[DEPTH - 1] = vec![BASE];
    assert_eq!(lists(&allocator), fresh);
}

#[test]
fn buddy_order_mapping() {
    let allocator = GeneralAllocator::<5>::from_existing_allocation(BASE, 256).unwrap();
    assert_eq!(allocator.min_block_size(), 16);
    assert_eq!(allocator.get_allocation_size(1, 1), Ok(16));
    assert_eq!(allocator.get_allocation_size(16, 8), Ok(16));
    assert_eq!(allocator.get_allocation_size(17, 8), Ok(32));
    assert_eq!(allocator.get_allocation_size(4, 64), Ok(64));
    assert_eq!(allocator.get_allocation_size(256, 8), Ok(256));
    assert_eq!(allocator.get_allocation_size(257, 8), Err(AllocatorError::BadRequest));
    assert_eq!(allocator.get_allocation_size(8, 3), Err(AllocatorError::BadRequest));
    assert_eq!(allocator.get_allocation_size(8, 0), Err(AllocatorError::BadRequest));
    assert_eq!(allocator.get_allocation_size(8, 8192), Err(AllocatorError::BadRequest));
    assert_eq!(allocator.get_allocation_size(usize::MAX, 8), Err(AllocatorError::BadRequest));
    assert_eq!(allocator.get_allocation_order(1, 1), Ok(0));
    assert_eq!(allocator.get_allocation_order(17, 8), Ok(1));
    assert_eq!(allocator.get_allocation_order(100, 8), Ok(3));
    assert_eq!(allocator.get_allocation_order(256, 8), Ok(4));
    assert_eq!(allocator.get_allocation_order(300, 8), Err(AllocatorError::BadRequest));
    for order in 0..5 {
        assert_eq!(allocator.get_required_block_size(order), 16 << order);
    }
}

#[test]
fn buddy_splits_down_to_the_order_asked_for() {
    let mut allocator = GeneralAllocator::<5>::from_existing_allocation(BASE, 256).unwrap();
    assert_eq!(allocator.raw_alloc(16, 8), Some(BASE));
    assert_eq!(
        lists(&allocator),
        vec![vec![BASE + 16], vec![BASE + 32], vec![BASE + 64], vec![BASE + 128], vec![]]
    );
    assert_eq!(allocator.raw_alloc(16, 8), Some(BASE + 16));
    assert_eq!(allocator.raw_alloc(64, 8), Some(BASE + 64));
    assert_eq!(allocator.raw_alloc(16, 8), Some(BASE + 32));
    assert_eq!(
        lists(&allocator),
        vec![vec![BASE + 48], vec![], vec![], vec![BASE + 128], vec![]]
    );
    assert_eq!(allocator.raw_alloc(256, 8), None);
    assert_eq!(allocator.raw_alloc(8, 3), None);
    assert_eq!(allocator.raw_alloc(128, 128), Some(BASE + 128));
    assert_eq!(allocator.raw_alloc(32, 8), None);
    assert_eq!(allocator.raw_alloc(1, 1), Some(BASE + 48));
    assert_eq!(allocator.raw_alloc(1, 1), None);
}

#[test]
fn buddy_joins_free_buddies() {
    let mut allocator = GeneralAllocator::<5>::from_existing_allocation(BASE, 256).unwrap();
    let fresh = lists(&allocator);
    let whole = allocator.raw_alloc(256, 8).unwrap();
    assert_eq!(allocator.raw_alloc(4, 4), None);
    allocator.raw_dealloc(whole, 256, 8);
    assert_eq!(lists(&allocator), fresh);

    let a = allocator.raw_alloc(16, 8).unwrap();
    let b = allocator.raw_alloc(16, 8).unwrap();
    let c = allocator.raw_alloc(32, 8).unwrap();
    assert_eq!((a, b, c), (BASE, BASE + 16, BASE + 32));
    allocator.raw_dealloc(a, 16, 8);
    assert_eq!(
        lists(&allocator),
        vec![vec![BASE], vec![], vec![BASE + 64], vec![BASE + 128], vec![]]
    );
    allocator.raw_dealloc(c, 32, 8);
    assert_eq!(
        lists(&allocator),
        vec![vec![BASE], vec![BASE + 32], vec![BASE + 64], vec![BASE + 128], vec![]]
    );
    allocator.raw_dealloc(b, 16, 8);
    assert_eq!(lists(&allocator), fresh);
}

#[test]
fn balanced_use_restores_the_free_lists() {
    let mut allocator = GeneralAllocator::<DEPTH>::from_existing_allocation(BASE, 4096).unwrap();
    let fresh = lists(&allocator);
    let sizes = [32usize, 8, 100, 64, 8, 8, 500, 33, 32, 256, 16, 1000, 8, 70];
    let mut held: Vec<(usize, usize)> = Vec::new();
    for (round, size) in sizes.iter().enumerate() {
        if let Some(address) = allocator.raw_alloc(*size, 8) {
            assert!(allocator.can_dealloc(address, *size, 8));
            held.push((address, *size));
        }
        if round % 3 == 2 {
            let (address, size) = held.remove(held.len() / 2);
            allocator.raw_dealloc(address, size, 8);
        }
    }
    let mut sorted: Vec<(usize, usize)> = held.clone();
    sorted.sort();
    for pair in sorted.windows(2) {
        assert!(pair[0].0 + pair[0].1 <= pair[1].0);
    }
    while !held.is_empty() {
        let (address, size) = held.remove(held.len() / 3);
        allocator.raw_dealloc(address, size, 8);
    }
    assert_eq!(lists(&allocator), fresh);
}

#[test]
fn buddy_blocks_and_membership() {
    let allocator = GeneralAllocator::<5>::from_existing_allocation(BASE, 256).unwrap();
    assert!(allocator.contains(BASE));
    assert!(allocator.contains(BASE + 255));
    assert!(!allocator.contains(BASE + 256));
    assert!(!allocator.contains(BASE - 1));
    assert!(allocator.is_block(BASE, 4));
    assert!(!allocator.is_block(BASE + 128, 4));
    assert!(allocator.is_block(BASE + 128, 3));
    assert!(allocator.is_block(BASE + 240, 0));
    assert!(!allocator.is_block(BASE + 8, 0));
    assert!(!allocator.is_block(BASE + 256, 0));
    assert!(!allocator.is_block(BASE, 5));
    assert!(allocator.can_dealloc(BASE + 64, 64, 8));
    assert!(!allocator.can_dealloc(BASE + 32, 64, 8));
    assert!(!allocator.can_dealloc(BASE, 64, 3));
}

#[test]
fn buddy_dealloc_by_type() {
    let mut allocator = GeneralAllocator::<5>::from_existing_allocation(BASE, 256).unwrap();
    let fresh = lists(&allocator);
    let word = allocator.raw_alloc(std::mem::size_of::<u64>(), std::mem::align_of::<u64>()).unwrap();
    allocator.dealloc::<u64>(word);
    assert_eq!(lists(&allocator), fresh);
}

#[test]
fn ratio_split_rounds_to_the_nearest() {
    assert_eq!(Ratio(1, 2).split(1024), (341, 683));
    assert_eq!(Ratio(1, 2).split(3), (1, 2));
    assert_eq!(Ratio(15, 1).split(341), (320, 21));
    assert_eq!(Ratio(1, 1).split(5), (3, 2));
    assert_eq!(Ratio(1, 3).split(2), (1, 1));
    assert_eq!(Ratio(0, 0).split(9), (0, 9));
    assert_eq!(Ratio(0, 4).split(9), (0, 9));
    assert_eq!(Ratio(4, 0).split(9), (9, 0));
    assert_eq!(Ratio(u32::MAX, u32::MAX).split(usize::MAX), (usize::MAX / 2 + 1, usize::MAX / 2));
    for value in 0..500usize {
        let (first, second) = Ratio(1, 2).split(value);
        assert_eq!(first, ((1.0 / 3.0) * value as f64).round() as usize);
        assert_eq!(first + second, value);
    }
}

#[test]
fn heap_plan_rounds_each_part_to_a_power_of_two() {
    let plan = plan_heap(1 << 24).unwrap();
    // young = 5592405, old = 11184811, infant = 5242880, teen = 349525
    assert_eq!(plan.infant_capacity, 1 << 23);
    assert_eq!(plan.teen_capacity, 1 << 19);
    assert_eq!(plan.adult_capacity, 1 << 24);
    assert_eq!(plan.total_capacity, (1 << 23) + (1 << 19) + (1 << 24));
    let none = plan_heap(0).unwrap();
    assert_eq!((none.infant_capacity, none.teen_capacity, none.adult_capacity), (1, 1, 1));
    assert_eq!(
        plan_heap(usize::MAX).err(),
        Some(HeapError::CannotProvision(AllocatorError::InvalidHeapSize))
    );
}

fn heap() -> Heap {
    let plan = plan_heap(1 << 24).unwrap();
    Heap::from_existing_allocation(BASE, plan).unwrap()
}

#[test]
fn heap_serves_from_the_infant_arena() {
    let mut heap = heap();
    assert_eq!(heap.base(), BASE);
    assert_eq!(heap.raw_alloc(24, 8), Some(BASE));
    assert_eq!(heap.raw_alloc(8, 8), Some(BASE + 24));
    assert_eq!(heap.infant().used(), 32);
    assert_eq!(heap.get_pool(BASE + 24), Some(PoolType::Infant));
    assert_eq!(heap.raw_alloc(1 << 23, 8), None);
    assert_eq!(heap.raw_alloc((1 << 23) - 32, 8), Some(BASE + 32));
    assert_eq!(heap.raw_alloc(8, 8), None);
    assert_eq!(heap.infant().used(), 1 << 23);
}

#[test]
fn heap_pools_are_told_apart_by_address() {
    let heap = heap();
    let teen = BASE + (1 << 23);
    let adult = teen + (1 << 19);
    let end = adult + (1 << 24);
    assert_eq!(heap.get_pool(BASE - 1), None);
    assert_eq!(heap.get_pool(BASE), Some(PoolType::Infant));
    assert_eq!(heap.get_pool(teen - 1), Some(PoolType::Infant));
    assert_eq!(heap.get_pool(teen), Some(PoolType::Teen(0)));
    assert_eq!(heap.get_pool(teen + (1 << 18) - 1), Some(PoolType::Teen(0)));
    assert_eq!(heap.get_pool(teen + (1 << 18)), Some(PoolType::Teen(1)));
    assert_eq!(heap.get_pool(adult - 1), Some(PoolType::Teen(1)));
    assert_eq!(heap.get_pool(adult), Some(PoolType::Adult));
    assert_eq!(heap.get_pool(end - 1), Some(PoolType::Adult));
    assert_eq!(heap.get_pool(end), None);
}

#[test]
fn heap_dealloc_changes_nothing_for_the_arena_and_strangers() {
    let mut heap = heap();
    let given = heap.raw_alloc(64, 8).unwrap();
    heap.raw_dealloc(given, 64, 8);
    heap.dealloc::<u64>(given);
    heap.raw_dealloc(BASE - 4096, 64, 8);
    heap.raw_dealloc(BASE + (1 << 23) + 1, 64, 8);
    heap.raw_dealloc(BASE + (1 << 23), 64, 3);
    assert_eq!(heap.infant().used(), 64);
    assert_eq!(heap.raw_alloc(8, 8), Some(BASE + 64));
}

#[test]
fn heap_constraints() {
    let bad = Some(HeapError::CannotProvision(AllocatorError::BadConstraints));
    let plan = plan_heap(1 << 24).unwrap();
    assert_eq!(Heap::from_existing_allocation(BASE + 8, plan).err(), bad);
    assert_eq!(Heap::from_existing_allocation(usize::MAX - 4095, plan).err(), bad);
    let small = plan_heap(1024).unwrap();
    assert_eq!(Heap::from_existing_allocation(BASE, small).err(), bad);
    let wrong = HeapPlan { total_capacity: 1, ..plan };
    assert_eq!(Heap::from_existing_allocation(BASE, wrong).err(), bad);
}

#[test]
fn heap_gives_blocks_back_to_the_pool_that_holds_them() {
    let mut heap = heap();
    let teen = BASE + (1 << 23);
    let adult = teen + (1 << 19);
    assert_eq!(heap.teen(0).base(), teen);
    assert_eq!(heap.teen(0).capacity(), 1 << 18);
    assert_eq!(heap.teen(1).base(), teen + (1 << 18));
    assert_eq!(heap.adult().base(), adult);
    assert_eq!(heap.adult().capacity(), 1 << 24);
    assert_eq!(heap.adult().min_block_size(), 512);
    assert_eq!(heap.teen(1).free_blocks(15), &vec![teen + (1 << 18)]);
    // a block of the lowest order of the second teen pool
    heap.raw_dealloc(teen + (1 << 18) + 64, 8, 8);
    assert_eq!(heap.teen(1).free_blocks(0), &vec![teen + (1 << 18) + 64]);
    assert!(heap.teen(0).free_blocks(0).is_empty());
    assert!(heap.adult().free_blocks(0).is_empty());
    // and one of the adult pool
    heap.raw_dealloc(adult + 1024, 1024, 8);
    assert_eq!(heap.adult().free_blocks(1), &vec![adult + 1024]);
    assert!(heap.teen(1).free_blocks(1).is_empty());
}
