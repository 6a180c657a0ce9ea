//! A byte stream over the messages of a WebSocket.
//!
//! What is written is gathered and sent as one message; what is read comes out
//! of one message at a time.

use vstd::prelude::*;

use crate::error::{Failure, VncError};
use crate::wire::{push_all, slice, to_vec};

verus! {

/// A message of the other side.
pub enum WsMessage {
    Binary(Vec<u8>),
    /// A text, as UTF-8.
    Text(Vec<u8>),
    Close,
    /// A ping, a pong, or a bare frame.
    Other,
}

/// The bytes between a stream and its messages.
pub struct WsBuffer {
    read_buf: Vec<u8>,
    read_pos: usize,
    write_buf: Vec<u8>,
}

impl WsBuffer {
    /// Whether the position lies inside the message.
    pub closed spec fn wf(self) -> bool {
        self.read_pos <= self.read_buf@.len()
    }

    /// The bytes that have come and are not read yet.
    pub closed spec fn incoming(self) -> Seq<u8> {
        self.read_buf@.skip(self.read_pos as int)
    }

    /// The bytes that are written and not sent yet.
    pub closed spec fn outgoing(self) -> Seq<u8> {
        self.write_buf@
    }

    pub fn new() -> (r: WsBuffer)
        ensures
            r.wf(),
            r.incoming() == Seq::<u8>::empty(),
            r.outgoing() == Seq::<u8>::empty(),
    {
        let r = WsBuffer { read_buf: Vec::new(), read_pos: 0, write_buf: Vec::new() };
        assert(r.incoming() =~= Seq::<u8>::empty());
        r
    }

    /// Whether a message has to come before anything can be read.
    pub fn drained(&self) -> (r: bool)
        requires
            self.wf(),
        ensures
            r == (self.incoming().len() == 0),
    {
        self.read_pos >= self.read_buf.len()
    }

    /// Takes a message of the other side. Whether it holds bytes is returned,
    /// even where it holds none of them; a closed connection is an error.
    pub fn fill_buffer(&mut self, message: WsMessage) -> (r: Result<bool, VncError>)
        requires
            old(self).wf(),
            old(self).incoming().len() == 0,
        ensures
            final(self).wf(),
            final(self).outgoing() == old(self).outgoing(),
            match message {
                WsMessage::Binary(data) | WsMessage::Text(data) => r == Ok::<bool, VncError>(true)
                    && final(self).incoming() == data@,
                WsMessage::Close => r matches Err(e) && e@ == Failure::Io("WebSocket closed"@)
                    && final(self).incoming() == old(self).incoming(),
                WsMessage::Other => r == Ok::<bool, VncError>(false) && final(self).incoming()
                    == old(self).incoming(),
            },
    {
        match message {
            WsMessage::Binary(data) | WsMessage::Text(data) => {
                self.read_buf = data;
                self.read_pos = 0;
                assert(self.incoming() =~= data@);
                Ok(true)
            },
            WsMessage::Close => Err(VncError::Io("WebSocket closed".to_owned())),
            WsMessage::Other => Ok(false),
        }
    }

    /// Reads at most `most` bytes of the message.
    pub fn read(&mut self, most: usize) -> (r: Vec<u8>)
        requires
            old(self).wf(),
        ensures
            final(self).wf(),
            r@.len() == if most < old(self).incoming().len() {
                most as nat
            } else {
                old(self).incoming().len()
            },
            r@ + final(self).incoming() == old(self).incoming(),
            final(self).outgoing() == old(self).outgoing(),
    {
        let left: usize = self.read_buf.len() - self.read_pos;
        let n: usize = if most < left {
            most
        } else {
            left
        };
        let start: usize = self.read_pos;
        let r = to_vec(slice(self.read_buf.as_slice(), start, start + n));
        self.read_pos = start + n;
        assert(r@ + self.incoming() =~= old(self).incoming());
        r
    }

    /// Gathers bytes to be sent.
    pub fn write(&mut self, data: &[u8])
        requires
            old(self).wf(),
        ensures
            final(self).wf(),
            final(self).incoming() == old(self).incoming(),
            final(self).outgoing() == old(self).outgoing() + data@,
    {
        push_all(&mut self.write_buf, data);
    }

    /// The message to send, if anything was written.
    pub fn unsent(&self) -> (r: Option<Vec<u8>>)
        ensures
            match r {
                Some(message) => message@ == self.outgoing() && message@.len() > 0,
                None => self.outgoing().len() == 0,
            },
    {
        if self.write_buf.len() == 0 {
            None
        } else {
            Some(to_vec(self.write_buf.as_slice()))
        }
    }

    /// Records that the message is sent.
    pub fn sent(&mut self)
        requires
            old(self).wf(),
        ensures
            final(self).wf(),
            final(self).incoming() == old(self).incoming(),
            final(self).outgoing() == Seq::<u8>::empty(),
    {
        self.write_buf = Vec::new();
        assert(self.outgoing() =~= Seq::<u8>::empty());
    }
}

} // verus!
