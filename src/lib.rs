//! Memory-management core of a higher-half x86 kernel: typed addresses,
//! page-table entries and the table walker, the physical frame allocator,
//! the high-memory virtual allocator, the kernel heap, critical regions and
//! the page-fault classifier.

pub mod addr;
pub mod bits;
pub mod boot;
pub mod fault;
pub mod frame;
pub mod heap;
pub mod highmem;
pub mod memmap;
pub mod misc;
pub mod paging;
pub mod sync;
pub mod vm;
