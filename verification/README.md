# kernel

The logic of a small x86-64 hobby kernel, verified with Verus.

- `src/boot`: multiboot2 boot information (pointer checks, tag walk, memory
  map entries) and boot-loader detection.
- `src/memory/pmm.rs`: the bitmap frame allocator.
- `src/memory/layout.rs`: available regions from the memory map, sorted and
  merged, and the reserved ranges.
- `src/memory/heap.rs`: the early bump heap.
- `src/memory/vmm.rs`: addresses, pages, mapping requests, the kernel
  address space.
- `src/memory/mod.rs`: memory bring-up, its probes and its report lines.
- `src/syscall`: the system call ABI and dispatcher.
- `src/interrupts.rs`, `src/serial.rs`, `src/vga.rs`, `src/utils/console.rs`,
  `src/cpu.rs`: what to write to the PICs, the serial port and the text
  screen, and the exception report.
- `app/main.rs`: the hardware side (port I/O, VGA memory, CR3, IDT, trap
  entries), which performs what the library decides.

The kernel's state (allocator bitmap, heap offset, root table) is held in
values (`FrameAllocator`, `EarlyHeap`, `VmmState`, `KernelMemory`)
that the functions take by reference.
