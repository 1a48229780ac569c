use std::any::Any;
use std::collections::HashMap;
use std::mem::{align_of_val, size_of_val};

use azimuth::memory::allocators::arena::ArenaAllocator;
use azimuth::memory::allocators::general::GeneralAllocator;

const BASE: usize = 0x40_0000;
const CAPACITY: usize = 1 << 16;
const DEPTH: usize = 8;

/// Stands for the memory of a region: what was written at which address.
struct Cells {
    values: HashMap<usize, Box<dyn Any>>,
}

impl Cells {
    fn new() -> Self {
        Cells { values: HashMap::new() }
    }

    fn write<T: 'static>(&mut self, address: usize, value: T) {
        self.values.insert(address, Box::new(value));
    }

    fn read<T: 'static>(&self, address: usize) -> &T {
        self.values[&address].downcast_ref::<T>().unwrap()
    }
}

struct Arena {
    books: ArenaAllocator,
    cells: Cells,
}

impl Arena {
    fn with_capacity(capacity: usize) -> Option<Self> {
        Some(Arena { books: ArenaAllocator::from_owned_allocation(BASE, capacity), cells: Cells::new() })
    }

    fn allocate<T: 'static>(&mut self, value: T) -> Option<usize> {
        let address = self.books.raw_alloc(size_of_val(&value), align_of_val(&value))?;
        self.cells.write(address, value);
        Some(address)
    }

    fn release_all(&mut self) {
        self.books.release_all();
    }

    fn read<T: 'static>(&self, address: usize) -> &T {
        self.cells.read(address)
    }
}

struct Buddy<const N: usize> {
    books: GeneralAllocator<N>,
    cells: Cells,
}

impl<const N: usize> Buddy<N> {
    fn with_capacity(capacity: usize) -> Option<Self> {
        let books = GeneralAllocator::from_owned_allocation(BASE, capacity).ok()?;
        Some(Buddy { books, cells: Cells::new() })
    }

    fn allocate<T: 'static>(&mut self, value: T) -> Option<usize> {
        let address = self.books.raw_alloc(size_of_val(&value), align_of_val(&value))?;
        self.cells.write(address, value);
        Some(address)
    }

    fn dealloc<T: 'static>(&mut self, address: usize) {
        self.books.dealloc::<T>(address);
    }

    fn read<T: 'static>(&self, address: usize) -> &T {
        self.cells.read(address)
    }
}

#[derive(Debug, Clone, PartialEq, Eq)]
struct TestingData {
    number: i32,
    character: char,
    boolean: bool,
    text: &'static str,
}

impl TestingData {
    pub fn new(number: i32, character: char, boolean: bool, text: &'static str) -> Self {
        TestingData { number, character, boolean, text }
    }
}

#[test]
fn arena_created() {
    let _ = Arena::with_capacity(1024).unwrap();
}

#[test]
fn arena_single_allocation() {
    let mut arena = Arena::with_capacity(1024).unwrap();
    let ptr = arena
        .allocate(TestingData { number: 1, character: 'a', boolean: false, text: "Hello!" })
        .unwrap();

    assert_eq!(arena.read::<TestingData>(ptr).boolean, false);
    assert_eq!(arena.read::<TestingData>(ptr).number, 1);
    assert_eq!(arena.read::<TestingData>(ptr).character, 'a');
    assert_eq!(arena.read::<TestingData>(ptr).text, "Hello!");
}

#[test]
fn multi_allocation() {
    let mut arena = Arena::with_capacity(1024).unwrap();
    let ptrs: Vec<_> = (0..10usize).map(|x| arena.allocate(x).unwrap()).collect();

    for (i, ptr) in ptrs.iter().enumerate() {
        assert_eq!(*arena.read::<usize>(*ptr), i);
    }
}

#[test]
fn multi_sized_allocations() {
    let mut arena = Arena::with_capacity(1024).unwrap();

    let integer = arena.allocate(5).unwrap();
    let boolean = arena.allocate(true).unwrap();
    let string = arena.allocate("Hello World!").unwrap();
    let character = arena.allocate('b').unwrap();
    let testing_data = arena
        .allocate(TestingData { number: 1, character: 'a', boolean: false, text: "Hello!" })
        .unwrap();

    assert_eq!(*arena.read::<i32>(integer), 5);
    assert_eq!(*arena.read::<bool>(boolean), true);
    assert_eq!(*arena.read::<&str>(string), "Hello World!");
    assert_eq!(*arena.read::<char>(character), 'b');

    assert_eq!(arena.read::<TestingData>(testing_data).boolean, false);
    assert_eq!(arena.read::<TestingData>(testing_data).number, 1);
    assert_eq!(arena.read::<TestingData>(testing_data).character, 'a');
    assert_eq!(arena.read::<TestingData>(testing_data).text, "Hello!");
}

#[test]
fn deallocation() {
    let mut arena = Arena::with_capacity(1024).unwrap();

    let ptr1 = arena.allocate("Hello!").unwrap();
    assert_eq!(*arena.read::<&str>(ptr1), "Hello!");

    arena.release_all();

    let ptr2 = arena.allocate("World!").unwrap();
    assert_eq!(*arena.read::<&str>(ptr2), "World!");

    assert_eq!(ptr1, ptr2);
}

#[test]
fn overflow() {
    let mut arena = Arena::with_capacity(1024).unwrap();

    let _ptr = arena.allocate([0_u8; 1024]);

    let ptr2 = arena.allocate(12);
    assert_eq!(ptr2, None);

    arena.release_all();

    let ptr2 = arena.allocate(12).unwrap();
    assert_eq!(*arena.read::<i32>(ptr2), 12);
}

#[test]
fn create_allocator() {
    let _ = Buddy::<DEPTH>::with_capacity(CAPACITY).unwrap();
}

#[test]
fn general_single_allocation() {
    let mut allocator = Buddy::<DEPTH>::with_capacity(CAPACITY).unwrap();
    let ptr = allocator
        .allocate(TestingData { number: 1, character: 'c', boolean: true, text: "Azimuth" })
        .unwrap();

    let data = allocator.read::<TestingData>(ptr);

    assert_eq!(data.number, 1);
    assert_eq!(data.character, 'c');
    assert_eq!(data.boolean, true);
    assert_eq!(data.text, "Azimuth");
}

#[test]
fn multiple_allocations() {
    let mut allocator = Buddy::<DEPTH>::with_capacity(CAPACITY).unwrap();
    let ptr1 = allocator
        .allocate(TestingData { number: 1, character: 'c', boolean: true, text: "Azimuth" })
        .unwrap();
    let ptr2 = allocator.allocate(42).unwrap();
    let ptr3 = allocator.allocate("What is this").unwrap();

    let data1 = allocator.read::<TestingData>(ptr1);
    let data2 = allocator.read::<i32>(ptr2);
    let data3 = allocator.read::<&str>(ptr3);

    assert_eq!(data1.number, 1);
    assert_eq!(data1.character, 'c');
    assert_eq!(data1.boolean, true);
    assert_eq!(data1.text, "Azimuth");

    assert_eq!(*data2, 42);
    assert_eq!(*data3, "What is this");
}

#[test]
fn basic_deallocation() {
    let mut allocator = Buddy::<5>::with_capacity(256).unwrap();

    let ptr = allocator.allocate([0_u8; 256]).unwrap();

    let ptr2 = allocator.allocate(42);
    assert_eq!(ptr2, None);

    allocator.dealloc::<[u8; 256]>(ptr);

    let ptr2 = allocator.allocate(42).unwrap();
    let data = allocator.read::<i32>(ptr2);

    assert_eq!(*data, 42);
}

#[test]
fn complex_management() {
    let mut allocator = Buddy::<DEPTH>::with_capacity(4096).unwrap();

    let testing_data: Vec<TestingData> = (0..20)
        .map(|x| TestingData::new(x as i32, ('a' as u8 + x as u8) as char, (x % 2) != 0, "Azimuth"))
        .collect();

    let mut test_ptrs: Vec<usize> =
        testing_data.iter().cloned().map(|x| allocator.allocate(x).unwrap()).collect();

    let mut integer_ptrs: Vec<usize> =
        (0..20usize).map(|x| allocator.allocate(x + 100).unwrap()).collect();

    // Check validity and deallocate odd entries
    for (i, (correct, test)) in testing_data.iter().zip(test_ptrs.clone()).enumerate() {
        assert_eq!(correct, allocator.read::<TestingData>(test));
        if i % 2 == 1 {
            allocator.dealloc::<TestingData>(test);
        }
    }

    for (i, integer) in integer_ptrs.clone().iter().enumerate() {
        assert_eq!(i + 100, *allocator.read::<usize>(*integer));
        if i % 2 == 1 {
            allocator.dealloc::<usize>(*integer);
        }
    }

    // Fill entries back in
    for i in (1..20).step_by(2) {
        test_ptrs[i] = allocator.allocate(TestingData::new(42, '!', true, "\0")).unwrap();
        integer_ptrs[i] = allocator.allocate(42usize).unwrap();
    }

    // Check again
    for (i, (correct, test)) in testing_data.iter().zip(test_ptrs.clone()).enumerate() {
        if i % 2 == 1 {
            assert_eq!(TestingData::new(42, '!', true, "\0"), *allocator.read::<TestingData>(test));
        } else {
            assert_eq!(correct, allocator.read::<TestingData>(test));
        }
    }

    for (i, integer) in integer_ptrs.iter().enumerate() {
        if i % 2 == 1 {
            assert_eq!(42, *allocator.read::<usize>(*integer))
        } else {
            assert_eq!(i + 100, *allocator.read::<usize>(*integer));
        }
    }

    // no two blocks that are out share an address
    let mut all: Vec<usize> = test_ptrs.iter().chain(integer_ptrs.iter()).copied().collect();
    all.sort();
    all.dedup();
    assert_eq!(all.len(), 40);
}
