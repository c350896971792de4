# profinet-rt

A PROFINET RT IO-Device stack whose protocol logic is verified with Verus.

- `src/wire.rs` — big-endian byte models shared by all codecs.
- `src/eth/` — Ethernet II / 802.1Q header codec; the frame transport trait and
  an in-memory transport.
- `src/dcp/` — DCP frame IDs and acyclic header, TLV block codec, Identify
  request parsing and response building, and the device-side dispatch
  `handle_dcp_frame`.
- `src/data.rs` — `INT` / `WORD` / `DINT` big-endian codecs and LSB-first `BOOL`
  bit access.
- `src/capture.rs` — frames of pcap and pcapng captures held in memory, read
  through the `pcap-file` parsers.
- `app/` — what talks to the operating system or uses floating point: the raw
  AF_PACKET transport, the `PcapFrames` reader over files and `Read` sources, the
  `REAL` codec, and error types with `Display` messages.

Each public function of `src/` states its result over spec functions; the laws
(codec round trips, header and block round trips in both directions, the
Identify exchange) are
proof functions next to the code they speak of.
