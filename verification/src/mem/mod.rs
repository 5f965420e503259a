//! Memory: addresses, page-table entries and the physical bitmaps.
pub mod types;
pub mod phys_bitmap;
pub mod pte;
pub mod page_allocator;
pub mod elf;
pub mod pagetable;
pub mod segment;
pub mod layout;
