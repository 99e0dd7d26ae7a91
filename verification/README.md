# firmata_board

A host-side adapter for boards that run the Firmata protocol (StandardFirmata
on an Arduino Uno, for instance), written in Verus.

- `src/` is the verified library: the wire format (`protocol`: 7-bit framing,
  encoders, the incremental decoder), the board (`board`: the cached pin
  state, the operations on a board over any transport, the decisions of the
  handshake, board profiles), typed pin handles (`pin`) and transports
  (`transport`: the trait, an in-memory mock, a flushing wrapper).
- `app/` holds what waits on I/O: serial ports, the loops that read until a
  message or an I2C reply arrives, the timed handshake, retries with back-off,
  and a copy of the error type with the traits that snafu derives.
- `tests/` exercises the library with concrete bytes.
