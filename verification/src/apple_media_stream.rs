//! Apple high-performance media stream receiver (H.264 / HEVC over UDP/SRTP).
//!
//! * [`srtp`]: decryption of incoming media and protection of outgoing feedback.
//! * [`rtcp`]: the feedback packets themselves.
//! * [`composed`]: how packets become strips, and strips the picture.
//! * [`counters`]: how keys, counters and packet numbers hang together.
//! * [`depacketizer`]: reassembly of NAL units from RTP payloads.
//! * [`tiles`]: per-source receive state and the group of tile sources.
//! * [`canvas`]: composition of decoded strips into a picture.
//! * [`receiver`]: what happens on every packet, tick and decoded picture.
//!
//! Each tile arrives on its own consecutive SSRC; strips are reassembled per
//! SSRC, decoded with one shared decoder, and composited into a full picture.
//! Audio is not decoded.

pub mod canvas;
pub mod composed;
pub mod counters;
pub mod depacketizer;
pub mod receiver;
pub mod rtcp;
pub mod srtp;
pub mod tiles;
