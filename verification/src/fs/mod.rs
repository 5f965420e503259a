//! File-system pieces: kinds of files, paths, pipes, the UART's ring buffer
//! and the ParchFS file system.
pub mod types;
pub mod vfs;
pub mod pipes;
pub mod ring_buffer;
pub mod parch_fs;
pub mod dev_fs;
pub mod proc_fs;
pub mod mount;
