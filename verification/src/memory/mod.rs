pub mod allocators;
pub mod heap;
