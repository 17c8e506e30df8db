# source_demo_tool

A reader for Source engine demo files (`.dem`), written in Verus: every
parsing step of the library states what it returns in its contract, the
declared network and user message tables are stated field by field, and
Verus proves the code against them.

A demo whose frames break off still opens: it keeps the frames read before
the break and records the error in `DemoFile::last_index_error`.  The data
tables are collected from the sign-on frames, then from the other frames;
the server info and the game event list are looked for in the sign-on
packets of the sign-on frames first, then in all packets of the other
frames.

## Layout

- `src/reader.rs` — a cursor over the bytes of a demo.
- `src/parse_tools.rs` — little-endian integers, fixed-width and
  zero-terminated strings, variable-length integers.
- `src/bitmath.rs`, `src/bitbuf.rs` — bit fields read from a byte buffer,
  32 bits at a time.
- `src/protobuf_message.rs` — raw protobuf fields (varint, length-delimited,
  32-bit).
- `src/message_schema.rs` — declared messages and the decoder that turns raw
  fields into named values, with warnings for unknown and missing fields.
- `src/demo_file/` — the demo header, frames, packets, data tables, the
  declared network and user messages, packets of entities, game events and
  user messages.
- `src/naming.rs` — identifier case conversion.
- `app/` — opening a demo file from disk and decoding its frames on worker
  threads, and the floating-point views of values that the library keeps as
  bit patterns.

Floats are kept as their IEEE-754 bits inside the library; the `app` crate
turns them back into `f32` / `f64`.
