# taiga

The logic of Taiga OS, a small x86-64 kernel with its own UEFI boot loader,
written in Verus and proved against its contracts.

## Layout

- `src/` — the verified library.
  - Page frame allocation: `frame_alloc` and `frame_bitmap` (the kernel's
    allocator), `pfa` and `bitmap` (the memory driver's), `memory_paging` and
    `byte_data_types` (the allocator over a byte-sized bitmap), `memory`,
    `memory_map` and `boot` (the firmware memory map and the boot hand-over).
  - Paging: `virtual_memory` (four-level tables, mapping, identity-mapping
    start-up), `page_tree` (the proofs about the tree start-up builds),
    `arch_paging` and `page_map_indexer` (the other two table managers), and
    `table_memory` (page tables held as a map from frame address to entries).
  - Descriptor tables and devices: `arch_gdt`, `arch_idt`, `gdt`, `idt`,
    `pic` and `log` (port operations as lists of values), `keyboard`.
  - Drawing: `colour`, `graphics`, `kernel_graphics`, `temp_graphics`,
    `efi_graphics_output`, `psf`, `fonts`, and the two text terminals
    `terminal` and `temp_terminal`.
  - Boot loader: `uefi` (status codes and data types), `file` (what follows
    each firmware call when a file is read), `psf::load_font`.
  - `bits` holds the lemmas on bit sequences the bitmaps share; `once_lock`
    the write-once cell.
- `tests/` — tests of the library on concrete values.
- `app/` — the kernel's entry point and what touches the hardware: port I/O
  and the `lgdt`/`lidt` instructions, interrupt entry points, the frame
  buffer behind the terminal, the firmware's file protocols, and alpha
  blending (floating point).
