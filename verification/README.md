# somehal

The decisions of an early-boot hardware abstraction layer for kernels on
MMU-equipped chips, written in Verus with their contracts proved:

- `mem`: the boot memory map (sorting and merging regions, cutting the
  non-RAM regions out of the RAM, reserving the memory before the kernel,
  the ranges the kernel page table maps, the secondary CPUs' stacks, and the
  AArch64 translation table entries built for each mapping);
- `early_debug`, `console`, `efi`: the debug console's readers and writer as
  step functions, the console's newline handling, UTF-8 decoding and the
  UEFI console's UTF-16 strings;
- `fdt`, `fdt_layout`, `power`, `trap`, `time`, `cache`: what the device
  tree describes (after a check of the blob's layout that keeps the parser
  from panicking), the PSCI conduit, exception classification, tick
  conversions;
- `paging`, `loongarch`: entry formats of other architectures, and the
  LoongArch relocation and address helpers.

`app/` holds what touches the hardware: global state, the UART hooks, the
device tree read from memory, PSCI calls, the live page table and the trap
entry points. It calls the library for every decision.
