//! Allocators over a region of memory that somebody else provides. They hand
//! out addresses and keep the books; they never touch the memory itself.

pub mod arena;
pub mod blocks;
pub mod coalescing;
pub mod general;

use vstd::prelude::*;

verus! {

/// Size and alignment of a page: what the base of a buddy region must be a
/// multiple of, and the largest alignment it serves.
pub const MIN_PAGE_ALIGNMENT: usize = 4096;

/// Why an allocator could not be set up or a request not be served.
#[derive(Clone, Copy, Debug, PartialEq, Eq, Structural)]
pub enum AllocatorError {
    /// The heap cannot be divided as asked.
    InvalidHeapSize,
    /// Size and alignment make no layout.
    BadLayout,
    /// The region could not be obtained.
    FailedInitialAllocation,
    /// Base, capacity or depth do not fit a buddy allocator.
    BadConstraints,
    /// Size or alignment of a request cannot be served.
    BadRequest,
}

} // verus!
