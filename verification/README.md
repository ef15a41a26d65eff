# rustsheng

Core of a programmer for Quansheng UV-K5 radios, written in Verus. The logic
under `src/` is verified against its contracts; a handful of small trusted
wrappers around std calls that vstd does not specify (`String::push`,
`String::from_utf8_lossy`, `Duration::from_millis`) state what their
contracts assume of std.

- `src/protocol/` — CRC-16/XMODEM, XOR obfuscation, datagram framing and the
  stream scanner, command payload builders, packet descriptions.
- `src/firmware/` — raw/vendor firmware image loading, version stripping,
  block splitting, CPU detection.
- `src/flash/` — write-request layout and the V2 flash packet sequence.
- `src/eeprom.rs` — EEPROM geometry, the confirmation levels that guard
  dangerous operations, range checks and the block split of partial writes.
- `src/transport/` — the byte-transport trait and a scripted in-memory
  transport.
- `src/client.rs` — response decoding and the handshake over any transport,
  with a ghost record of every exchange with the transport.
- `src/hex.rs`, `src/text.rs` — hex text and the formatting used in messages.
- `app/` — the command-line front end (serial port, files, printing).
- `tests/` — executable tests of the library.

Proved properties include `deframe(frame(p)) == Ok(p)`, that the scanner only
drops a prefix of its input and hands out each complete datagram intact, that
a vendor-packed image loads back to its raw bytes, that image blocks cover the
image, that every flash datagram decodes to its request, that hex text
decodes back to the bytes it renders, that each handshake result follows from
the bytes the transport delivered, and that `connect` stops at the first
success or flash-mode reply and otherwise returns the last of ten failures.
