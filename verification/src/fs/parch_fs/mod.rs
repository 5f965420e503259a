//! ParchFS: files whose blocks are pages of memory, found through direct,
//! indirect and doubly indirect block numbers in each inode.
pub mod config;
pub mod types;
pub mod store;
pub mod base;
pub mod laws;
pub mod dir;
pub mod files;
