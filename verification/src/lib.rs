//! Heap-management core of a small operating-system kernel.
//!
//! Two allocators over raw address ranges, with all address math done as
//! unsigned integer arithmetic:
//!
//! - a tiered byte allocator ([`Heap`]) that routes each request either to one
//!   of eight fixed-size slab classes or to a power-of-two binary-buddy tier,
//!   growing a slab class from the buddy tier when its free list runs dry;
//! - a double-ended bump allocator ([`EarlyAllocator`]) for the boot phase,
//!   serving byte allocations forward and page allocations backward from one
//!   region.
//!
//! [`LabByteAllocator`] is the lifecycle wrapper that owns an optional `Heap`.

pub mod buddy;
pub mod early;
pub mod heap;
pub mod lab;
pub mod layout;
pub mod slab;

pub use early::EarlyAllocator;
pub use heap::Heap;
pub use heap::HeapAllocator;
pub use lab::LabByteAllocator;
pub use layout::AllocError;
pub use layout::Layout;
