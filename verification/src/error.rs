//! The error type of the library.

use vstd::prelude::*;

use crate::text::concat_text;

verus! {

/// Why an operation on a session failed.
#[derive(Debug, Clone, PartialEq, Eq)]
pub enum VncError {
    /// The transport failed; the text describes how.
    Io(String),
    /// The peer broke the protocol, or a request cannot be expressed in it.
    Protocol(String),
    /// The server refused the connection or the credentials.
    AuthFailed(String),
    /// The server announced a protocol version this client does not speak.
    UnsupportedVersion(String),
    /// The server closed the connection.
    ServerClosed,
    /// There is no connection.
    NotConnected,
    /// The read timed out.
    Timeout,
}

/// What a [`VncError`] says.
pub enum Failure {
    Io(Seq<char>),
    Protocol(Seq<char>),
    AuthFailed(Seq<char>),
    UnsupportedVersion(Seq<char>),
    ServerClosed,
    NotConnected,
    Timeout,
}

impl View for VncError {
    type V = Failure;

    open spec fn view(&self) -> Failure {
        match self {
            VncError::Io(s) => Failure::Io(s@),
            VncError::Protocol(s) => Failure::Protocol(s@),
            VncError::AuthFailed(s) => Failure::AuthFailed(s@),
            VncError::UnsupportedVersion(s) => Failure::UnsupportedVersion(s@),
            VncError::ServerClosed => Failure::ServerClosed,
            VncError::NotConnected => Failure::NotConnected,
            VncError::Timeout => Failure::Timeout,
        }
    }
}

impl Failure {
    /// The message shown to a user.
    pub open spec fn message(self) -> Seq<char> {
        match self {
            Failure::Io(s) => "IO error: "@ + s,
            Failure::Protocol(s) => "Protocol error: "@ + s,
            Failure::AuthFailed(s) => "Authentication failed: "@ + s,
            Failure::UnsupportedVersion(s) => "Unsupported protocol version: "@ + s,
            Failure::ServerClosed => "Server closed connection"@,
            Failure::NotConnected => "Not connected"@,
            Failure::Timeout => "Read timed out"@,
        }
    }
}

impl VncError {
    /// The message shown to a user.
    pub fn message(&self) -> (r: String)
        ensures
            r@ == self@.message(),
    {
        match self {
            VncError::Io(s) => concat_text("IO error: ", s),
            VncError::Protocol(s) => concat_text("Protocol error: ", s),
            VncError::AuthFailed(s) => concat_text("Authentication failed: ", s),
            VncError::UnsupportedVersion(s) => concat_text("Unsupported protocol version: ", s),
            VncError::ServerClosed => "Server closed connection".to_owned(),
            VncError::NotConnected => "Not connected".to_owned(),
            VncError::Timeout => "Read timed out".to_owned(),
        }
    }
}

/// A protocol error with the given text.
pub fn protocol_error(text: &str) -> (r: VncError)
    ensures
        r@ == Failure::Protocol(text@),
{
    VncError::Protocol(text.to_owned())
}

} // verus!
