# viperstem

The verified core of a small x86_64 hobby kernel, written in Verus.

`src/` holds the kernel's logic with its contracts and proofs:

- `memory/sect_alloc.rs`: the section manager, a table of up to 16 physical
  memory sections with a used-bitmap, and its request policies (first free,
  largest, best fit).
- `memory/memmap.rs`: the boot memory map as plain values and the queries over it.
- `output/deprterminal.rs`: the 8x8-font framebuffer terminal (cursor, wrapping,
  clearing, glyph drawing).
- `descriptors/`: the GDT entry encoding and the kernel's default table.
- `execution/`: the job queue of the execution loop.
- `paging/`: page-table index arithmetic, the translation walk's decisions and
  the kernel and framebuffer page plans, over `x86_64` address types.
- `interrupts/`: PIC mask register arithmetic.
- `cpu/`: RSDP structures and the ACPI revision check.
- `utils/stacks/`: a fixed-capacity stack.
- `lib.rs`: the boot timestamp decomposition.

`app/` is the kernel glue that cannot be verified: bootloader requests, statics
and locks, port I/O, control registers and raw memory writes.
