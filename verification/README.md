# parch_kernel

The verified core of Parch, a small RISC-V (Sv39) teaching kernel, written
in Verus. Everything under `src/` is verified: the public functions state
what they return or change in `requires`/`ensures` contracts that Verus
proves, small private helpers among them; laws that relate several calls
are public proof functions.  The few calls into `std` and `elf_rs` that
Verus cannot read stand behind trusted wrappers whose doc comments say what
their contracts claim.

## Layout

- `src/bits.rs`, `src/text.rs`, `src/error.rs`, `src/config.rs`: bit facts,
  UTF-8 text helpers, the kernel's error numbers and constants.
- `src/mem/`: physical and virtual addresses, the bitmap and page allocator,
  page-table entries, Sv39 page tables over a model of table pages, the
  segments of an address space (lazy allocation, copy-on-write, file
  mappings), the kernel's own address space, and the load plan of an ELF
  program.
- `src/device/`: the flattened device tree (tokens, property values, nodes,
  searches), the 16550 UART, the PLIC and CLINT, and the syscon power-off,
  reboot and Goldfish clock drivers found through the tree. Drivers answer
  with the register accesses to make; the caller makes them.
- `src/fs/`: paths and open modes, file kinds and directory entries, pipes
  and the UART ring buffer, the ParchFS file system, mount points and the walk
  that opens a path across them, and the `/dev` and `/proc` folders.
- `src/process.rs`, `src/scheduler.rs`, `src/syscall.rs`, `src/trap.rs`:
  signals and the per-process bookkeeping, the run queue and process
  numbers, what each system call decides, and what a user trap leads to.
- `tests/`: ordinary Rust tests of the library.
- `app/`: a small program around the library that reads a device-tree blob
  (and optionally an ELF file) from disk and prints what the library makes
  of them.

What is trusted rather than proved: the wrapper around the outside crate
`elf_rs` that reads ELF headers (`src/mem/elf.rs`), and the wrapper around
`String::from_utf8` (`src/text.rs`).
