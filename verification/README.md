# kernel

The core of a small RISC-V (Sv39) microkernel as a verified library: the data structures,
allocators, parsers and scheduling decisions of the kernel, each with a contract that Verus
proves.

## Layout

- `src/arch`: pages, the Sv39 page tables (mappings, tables and their well-formedness), the
  encoding of access flags, the register state and the PLIC interrupt controller.
- `src/memory`: page numbers and ranges, areas, the buddy allocator, the page stack allocator
  and the memory manager functions.
- `src/allocator`, `src/slab.rs`, `src/heap.rs`: the arena of tasks and groups, the slab
  allocator and the containers over the kernel allocator.
- `src/driver`: the device tree blob (header, reserved regions, the structure block
  interpreter and a dump of the tree), what the boot log reports of it, and the `initramfs`
  file tree.
- `src/elf.rs`: the ELF64 executable parser for `init`.
- `src/task`: tasks, task groups, addresses, the registry, notifications, IPC packet delivery
  and the executor's choice of the next task.
- `src/syscall.rs`: the system calls, as functions from a task's state and the call's
  arguments to the status returned.
- `src/io`: the UART.
- `app/`: the boot sequence on a host, which reads a device tree blob and an `init` executable
  from files and logs what the library makes of them.

Hardware access (CSRs, SBI calls, MMIO, the trap glue) has no place in the library: the
library computes what to program, and the surrounding code performs it.
