//! A verified core for a small RISC-V kernel: bitmaps for physical pages and
//! inodes, the page allocator, Sv39 page tables and the segments of an
//! address space, the device-tree reader and the drivers it feeds, the
//! ParchFS file system, pipes, mounts and the `/dev` and `/proc` folders,
//! the run queue, and the bookkeeping behind the system calls.
pub mod bits;
pub mod config;
pub mod error;
pub mod fs;
pub mod mem;
pub mod text;
pub mod device;
pub mod process;
pub mod syscall;
pub mod scheduler;
pub mod trap;
