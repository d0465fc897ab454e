# atlas_ground

Verified ground-station logic for the ATLAS telemetry link.

- `src/packet.rs` - frame encoding and decoding (sync word `0xAA55`, big-endian
  fields, CRC-16/CCITT-FALSE from the `crc16` crate), with the round-trip laws.
- `src/stream.rs` - the receive path: resynchronisation on the sync word,
  frame extraction, sequence accounting and the dashboard messages.
- `src/link.rs` - link-state reports and the decisions of a live serial session.
- `src/command.rs` - operator commands to command frames.
- `src/session.rs` - the backend's session bookkeeping and request answers.
- `src/logger.rs`, `src/record.rs` - session logging, `.atl` records and replay
  bookkeeping.
- `src/simulator.rs` - the telemetry simulator.
- `src/text.rs` - number formatting and log labels.

`app/` is the executable around the library: the Axum/WebSocket backend, the
serial-port and file I/O, the logger and replay tools. It makes every decision
through the library.
