# pcapng_blocks

Reads the blocks of a pcapng capture held in memory, with Verus proofs of
what each reader returns.

- `src/cursor.rs`: a byte buffer with a read position.
- `src/endian.rs`: integers in either byte order, decoded through `byteorder`.
- `src/header.rs`, `src/block.rs`: a block read as a frame, then its body.
- `src/rawblock.rs`: a block read in one step, the byte order of a section
  decided by its section header block.
- `src/option.rs`: block options, up to the end-of-options option.
- `src/section.rs`, `src/interface.rs`, `src/interfacestat.rs`,
  `src/packet.rs`: the typed blocks.
- `src/text.rs`: the numbers and byte strings of the block listings.
- `app/main.rs`: lists the blocks of a capture file.
