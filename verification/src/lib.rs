//! A VNC (RFB) client library with Apple Screen Sharing extensions.
//!
//! The library holds the protocol logic: message layouts, decoders, key
//! schedules, packet reassembly and the decision procedures of a session. It
//! performs no I/O; callers hand it the bytes they received and send what it
//! returns.

pub mod apple_control;
pub mod apple_dh;
pub mod apple_media;
pub mod apple_media_stream;
pub mod apple_record_layer;
pub mod apple_srp;
pub mod auth;
pub mod bignum;
pub mod client;
pub mod clipboard;
pub mod crypto;
pub mod cursor;
pub mod decoder;
pub mod desktop;
pub mod encodings;
pub mod entropy;
pub mod error;
pub mod event;
pub mod framebuffer;
pub mod hextile;
pub mod inbox;
pub mod inflate;
pub mod jpeg;
pub mod maps;
pub mod messages;
pub mod nv12;
pub mod pixel_format;
pub mod profile;
pub mod protocol;
pub mod raster;
pub mod rre;
pub mod sasl_auth;
pub mod stats;
pub mod text;
pub mod tight;
pub mod trle;
pub mod vencrypt;
pub mod wire;
pub mod ws;
pub mod zlib;
pub mod zrle;

pub use crate::apple_control::{AppleDeviceInfo, AppleKeyboardInputSource};
pub use crate::apple_media_stream::receiver::MediaStreamEvent;
pub use crate::client::{VncClient, VncClientBuilder};
pub use crate::error::VncError;
pub use crate::event::VncEvent;
pub use crate::framebuffer::Transform;
pub use crate::messages::Screen;
pub use crate::pixel_format::PixelFormat;
pub use crate::stats::ConnectionStats;
