# sergio_ws

A minimal WebSocket implementation whose protocol logic is proved correct
against its specification.

- `src/` is the verified library:
  - `header.rs`: the frame header format (RFC 6455, section 5.2), decoded stage
    by stage and as a whole, encoded in its shortest form, with the laws that
    tie decoding and encoding together;
  - `mask.rs`: the masking transform and its involution law;
  - `frame.rs`: opcodes, payloads and frames;
  - `controle_frame.rs`, `message_in.rs`, `message_out.rs`: control frames
    handed to the caller, messages received and messages to send;
  - `connection.rs`: the read and write halves of a connection: how frames
    and messages are prepared for sending, how received bytes are cut into
    frames and assembled into messages within the maximum size, and the laws
    of closing, of message size and of a round trip between the two ends;
  - `external.rs`: the outside types and the trusted wrappers of the `bytes`,
    `std` and `tokio` functions that the library calls;
  - `lib.rs`: roles and the connection types over tokio's TCP streams.
- `app/` is the asynchronous front end: it reads and writes the bytes over the
  stream and leaves each decision to the library.
- `tests/` exercises the library on concrete frames, including the examples of
  RFC 6455, section 5.7.
