# disney_infinity

Talks to the Disney Infinity USB base: lights its three platforms and reads
the identifiers of the figures standing on them.

- `src/` is the protocol, verified with Verus:
  - `frame.rs` numbers requests (modulo 256) and frames them into 33-byte
    reports with their checksum;
  - `pending.rs` decodes the 32-byte reports of the base and keeps the
    answers in one slot per message number until they are picked up;
  - `tags.rs` reads the index reply and the tag replies into the tag table,
    and builds the data of the requests;
  - `commands.rs` and `error.rs` hold the command bytes and the error type.
- `app/` holds the HID plumbing that drives it: the device (through
  `hidapi`), the reader thread of the threaded API, the reader task of the
  asynchronous API (through `tokio`), the observers, and the example program.
- `tests/` runs the protocol on concrete reports.
