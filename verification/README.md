# uchat

A client library for uchat.io rooms, written in Verus.

- `src/protocol.rs`: the wire format — messages, lines, frames (`Message`,
  `uMessage`, `delimit_line`), each with its contract over byte sequences.
- `src/roundtrip.rs`: proofs that packed messages come back unchanged after
  splitting and unpacking.
- `src/join.rs`: the join configuration and the join request with its hash.
- `src/room.rs`: what a client does with received frames and lines.
- `src/encoding.rs`, `src/text.rs`: big-endian integers, escaping, decimal and
  hex text.
- `src/buffer.rs`: the `bytes` buffers the wire code works on.
- `app/`: the websocket client around the library.
