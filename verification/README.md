# goose

The hardware-independent logic of the goOSe micro-kernel, with its contracts proved.

- `src/hal_core`: address ranges and page alignment, permissions, the page allocator
  interface, a set-once cell, a reentrant spinlock and the HAL that records the kernel page
  table.
- `src/kernel/mm`: the physical memory manager (available regions from the device tree,
  descriptors of every page, first-fit allocation), the kernel address space and a buddy-style
  heap front end.
- `src/kernel/arch/riscv64`: the Sv39 page-table encoding, a model of the page tables in
  physical memory with map, unmap and walk, the identity-mapping helpers and the construction of
  the kernel page table; trap decoding.
- `src/kernel/device_tree.rs`: the device tree header check and the regions it describes.
- `src/drivers`, `src/kernel/drivers`: the decisions of the PL011 UART and GICv2 drivers, as
  register reads in and register writes out.
- `src/hal_riscv64`, `src/hal_aarch64`: trap causes, interrupt vectors and timer handling.

`src/kernel/driver_manager.rs` also picks the console driver of a node and sets the console up;
`src/kernel/tests.rs` holds the outcome of the boot tests and the steps of the timer test.

`app/` holds what runs on the hardware around the library: the boot entry, register accesses,
reading the device tree blob with the `fdt` crate, the trap entry and the logger.
