# blog_os

The console and memory pieces of a small x86_64 kernel, written in Verus.

- `src/vga_buffer.rs`: colours and attribute bytes, the 80x25 text buffer as
  rows of cells, and the `Writer` that writes bytes and strings to the bottom
  row, wraps and scrolls. Each operation is specified by `byte_step`,
  `string_step`, `scrolled` over the buffer's rows.
- `src/memory.rs`: the bootloader's memory map (read through two trusted
  accessors), the frame allocators, and the virtual address of the level 4
  page table.
- `src/vga_laws.rs`, `src/memory_laws.rs`: properties proved over those
  specifications (attribute bytes are unambiguous, writing in pieces equals
  writing at once, a printed line survives intact on the row above, usable
  frames are aligned, inside usable regions and never repeated).
- `app/`: the kernel binary around the library: the memory-mapped VGA buffer,
  the global writer and `print!` macros, CR3 and the page-table mapper, and
  the `FrameAllocator` impls.
