# vnc_client

A VNC (RFB) client library, verified with Verus. It speaks versions 3.3, 3.7 and
3.8 of the protocol and Apple's high-performance mode (3.889).

The library does no I/O. Bytes that came from a server go in; events, bytes to
send and work for the caller come out. What each function returns, and when it
refuses its input, is stated in its contract and proved.

- `src/client*` is the session: the handshake, what the user sends, and what a
  ready session reads.
- `src/desktop*` reads the messages of a ready session. `desktop/invariants.rs`
  and `desktop/arrival.rs` hold the laws about it: sizes stay in step, input is
  consumed, and how the bytes are cut up on arrival does not matter.
- `src/rre.rs`, `hextile.rs`, `trle.rs`, `zrle.rs`, `zlib.rs` and `tight.rs`
  decode rectangles into `framebuffer.rs`.
- `src/apple_*` is the high-performance mode: key agreement, the record layer,
  control messages, and the media stream with its SRTP, RTCP and tiles.
- `src/inbox.rs` and `src/ws.rs` hold bytes between a stream and its reader.
- `src/profile.rs` is what a connection dialog decides.
- `src/crypto.rs`, `bignum.rs`, `inflate.rs`, `zlib.rs`, `entropy.rs`, `text.rs`,
  `apple_srp.rs` and `sasl_auth.rs` hold the calls into other crates and the
  standard library, each behind a contract that is trusted.
- `app/` moves the bytes: sockets, TLS, WebSockets, the UDP media stream, stored
  profiles, video decoders and windows.
- `tests/` runs the library.
