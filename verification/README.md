# shiguredo_rtmp

A Sans I/O implementation of RTMP (Real Time Messaging Protocol), written in Verus:
every function states its behaviour in `requires` / `ensures` and Verus proves it.

The library does no I/O. The user feeds received bytes into a connection object, takes
the bytes it wants to send, and reacts to the events it reports.

## Layout

- `src/bytes.rs`, `src/float64.rs`, `src/text.rs`: big-endian integers, binary64 bit
  patterns, UTF-8 text and the buffer that collects received bytes.
- `src/amf.rs`, `src/amf0.rs`, `src/amf3.rs`: AMF0 and AMF3 values, their encoders and
  decoders, specified over mathematical models of the values; `src/amf0_laws.rs` and
  `src/amf3_laws.rs` prove that decoding gives back what was encoded.
- `src/media.rs`, `src/flv.rs`: audio and video frames and their FLV tag bodies.
- `src/rtmp_chunk*.rs`: the chunk layer (chunk streams, headers, chunk sizes), its
  encoder and decoder, and the proof that a decoder in step with an encoder reads back
  the messages it wrote.
- `src/rtmp_message*.rs`, `src/rtmp_user_control_event.rs`, `src/rtmp_command.rs`:
  messages, user control events and commands; `src/rtmp_message_laws.rs` proves that a
  message sent on one side is decoded unchanged on the other, and that decoding does not
  depend on how the received bytes were split.
- `src/rtmp_handshake.rs`: the client and server handshakes as state machines.
- `src/rtmp_connection.rs`, `src/rtmp_server_connection.rs`,
  `src/rtmp_client_connection.rs`: the message channel with its acknowledgement windows,
  and the server, publishing client and playing client connections.
- `src/rtmp_url.rs`: parsing and printing `rtmp://` and `rtmps://` URLs.
- `tests/`: tests of the library from outside.

Verification runs with the Verus toolchain on `src/lib.rs`; the tests run with `cargo
test`.
