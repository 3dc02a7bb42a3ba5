# mpi_two_sided

Verified framing and progress logic for a two-sided exchange between the
ranks of a message-passing communicator, and a communicator handle bound to
one element type.

- `src/codec.rs` — little-endian `u64` bytes and decimal text, with round-trip lemmas.
- `src/header.rs` — the nine-byte `MessageHeader` (type byte, little-endian count).
- `src/buffer.rs` — `DynamicBuffer` (floating-point payloads held as their bit
  patterns), element kinds, and payload bytes obtained through `bytemuck`.
- `src/segmented.rs` — `SegmentedBuffer`, a FIFO collection of arrivals.
- `src/two_sided.rs` — what is sent, how an incoming header is read, and the
  phases of the exchange (sends, barrier, completion, timeout), with the laws
  that tie them together.
- `src/rows.rs` — buffers of rows (`[T; N]`) flattened for sending and filled back on receipt.
- `src/typed.rs` — the cross-rank type check and the typed communicator (slices, single values, rows).
- `app/lib.rs` — the driver: posting, probing, receiving and testing through a
  `Communicator` trait, sleeping between polls, and the `f32`/`f64` view of
  payloads.
