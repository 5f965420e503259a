//! Constants of the machine and of the kernel's memory layout.
use vstd::prelude::*;

verus! {

/// Bits of the offset inside a page.
pub const PAGE_OFFSET: usize = 12;

/// Bytes in a page.
pub const PAGE_SIZE: usize = 4096;

/// Largest number of open file descriptors a process may hold.
pub const MAX_FD: usize = 4096;

/// Number of system-call slots a process keeps a trace switch for.
pub const MAX_SYSCALL: usize = 64;

/// The end of physical memory.
pub const PHYS_END_ADDR: u64 = 0x1_0000_0000;

/// How many harts the kernel runs on at most.
pub const MAX_CPUS: usize = 16;

/// How deep symbolic links may lead before opening a path gives up.
pub const MAX_LINK_RECURSE: usize = 32;

/// Bytes of the kernel stack of a process.
pub const PROC_K_STACK_SIZE: usize = 0x10_0000;

/// Bytes of the user stack of a process.
pub const PROC_U_STACK_SIZE: usize = 0x10_0000;

/// The page of the trampoline that switches between user and kernel: the
/// last page of the address space.
pub const TRAMPOLINE_ADDR: usize = usize::MAX - PAGE_SIZE + 1;

/// The page of the user-mode trampoline, below the trampoline.
pub const U_TRAMPOLINE_ADDR: usize = TRAMPOLINE_ADDR - PAGE_SIZE;

/// The page that holds the saved registers of a process, below the user-mode trampoline.
pub const TRAP_CONTEXT_ADDR: usize = U_TRAMPOLINE_ADDR - PAGE_SIZE;

/// The kernel stack of a process, below a guard page under the saved registers.
pub const PROC_K_STACK_ADDR: usize = TRAP_CONTEXT_ADDR - PAGE_SIZE - PROC_K_STACK_SIZE;

/// The user stack of a process, below a guard page under the kernel stack.
pub const PROC_U_STACK_ADDR: usize = PROC_K_STACK_ADDR - PAGE_SIZE - PROC_U_STACK_SIZE;

} // verus!
