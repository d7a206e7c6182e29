//! Verified core of a minimal WebSocket implementation: frame header
//! encoding and decoding, payload masking, message assembly and the
//! decisions of the read and write halves of a connection.

pub mod connection;
pub mod error;
pub mod external;
pub mod frame;
pub mod header;
pub mod controle_frame;
pub mod mask;
pub mod message_in;
pub mod message_out;

pub use crate::controle_frame::ControlFrame;
pub use crate::error::WebSocketError;
pub use crate::frame::{Frame, Payload};
pub use crate::frame::OpCode;
pub use crate::mask::unmask;

use vstd::prelude::*;

use tokio::net::tcp::{OwnedReadHalf, OwnedWriteHalf};
use tokio::net::TcpStream;

use crate::connection::{closed_after, ReadHalf, WriteEvent, WriteHalf};
use crate::external::tcp_into_split;

verus! {

/// Which end of the connection this is.
#[derive(Copy, Clone, Debug, PartialEq, Eq, Structural)]
pub enum Role {
    Server,
    Client,
}

/// The reading end of a split connection.
pub struct WebSocketRead {
    pub stream: OwnedReadHalf,
    pub read_half: ReadHalf,
}

/// The writing end of a split connection.
pub struct WebSocketWrite {
    pub stream: OwnedWriteHalf,
    pub write_half: WriteHalf,
}

/// A connection over a TCP stream whose WebSocket handshake is done.
pub struct WebSocket {
    pub stream: TcpStream,
    pub write_half: WriteHalf,
    pub read_half: ReadHalf,
}

/// The reading and writing ends of a connection whose handshake is done,
/// from the two halves of its stream.
pub fn after_handshake_split(read: OwnedReadHalf, write: OwnedWriteHalf, role: Role) -> (r: (
    WebSocketRead,
    WebSocketWrite,
))
    ensures
        r.0.stream == read,
        r.1.stream == write,
        r.0.read_half.is_after_handshake(role),
        r.1.write_half.is_after_handshake(role),
{
    (
        WebSocketRead { stream: read, read_half: ReadHalf::after_handshake(role) },
        WebSocketWrite { stream: write, write_half: WriteHalf::after_handshake(role) },
    )
}

impl WebSocketRead {
    /// The stream and the read half.
    pub fn into_parts_internal(self) -> (r: (OwnedReadHalf, ReadHalf))
        ensures
            r.0 == self.stream,
            r.1 == self.read_half,
    {
        (self.stream, self.read_half)
    }

    pub fn set_writev_threshold(&mut self, threshold: usize)
        ensures
            final(self).stream == old(self).stream,
            final(self).read_half == (ReadHalf {
                writev_threshold: threshold,
                ..old(self).read_half
            }),
    {
        self.read_half.writev_threshold = threshold;
    }

    /// Sets the maximum message size in bytes: a frame that announces a
    /// larger payload, or a message that grows larger, is refused.
    pub fn set_max_message_size(&mut self, max_message_size: usize)
        ensures
            final(self).stream == old(self).stream,
            final(self).read_half == (ReadHalf { max_message_size, ..old(self).read_half }),
    {
        self.read_half.max_message_size = max_message_size;
    }

    /// Sets whether a server removes the masking of what it receives.
    pub fn set_auto_apply_mask(&mut self, auto_apply_mask: bool)
        ensures
            final(self).stream == old(self).stream,
            final(self).read_half == (ReadHalf { auto_apply_mask, ..old(self).read_half }),
    {
        self.read_half.auto_apply_mask = auto_apply_mask;
    }
}

impl WebSocketWrite {
    /// Sets whether large frames go out in vectored writes.
    pub fn set_writev(&mut self, vectored: bool)
        ensures
            final(self).stream == old(self).stream,
            final(self).write_half.closed == closed_after(
                old(self).write_half.closed,
                WriteEvent::SetOption,
            ),
            final(self).write_half == (WriteHalf { vectored, ..old(self).write_half }),
    {
        self.write_half.vectored = vectored;
    }

    pub fn set_writev_threshold(&mut self, threshold: usize)
        ensures
            final(self).stream == old(self).stream,
            final(self).write_half.closed == closed_after(
                old(self).write_half.closed,
                WriteEvent::SetOption,
            ),
            final(self).write_half == (WriteHalf {
                writev_threshold: threshold,
                ..old(self).write_half
            }),
    {
        self.write_half.writev_threshold = threshold;
    }

    /// Sets whether a client masks what it sends.
    pub fn set_auto_apply_mask(&mut self, auto_apply_mask: bool)
        ensures
            final(self).stream == old(self).stream,
            final(self).write_half.closed == closed_after(
                old(self).write_half.closed,
                WriteEvent::SetOption,
            ),
            final(self).write_half == (WriteHalf { auto_apply_mask, ..old(self).write_half }),
    {
        self.write_half.auto_apply_mask = auto_apply_mask;
    }

    /// Whether a Close frame has been sent.
    pub fn is_closed(&self) -> (r: bool)
        ensures
            r == self.write_half.closed,
    {
        self.write_half.closed
    }
}

impl WebSocket {
    /// A connection over a stream whose handshake is done.
    pub fn after_handshake(stream: TcpStream, role: Role) -> (r: WebSocket)
        ensures
            r.stream == stream,
            r.read_half.is_after_handshake(role),
            r.write_half.is_after_handshake(role),
    {
        WebSocket {
            stream,
            write_half: WriteHalf::after_handshake(role),
            read_half: ReadHalf::after_handshake(role),
        }
    }

    /// Splits the connection into its reading and writing ends, each with
    /// its half of the stream and its half of the state.
    pub fn split(self) -> (r: (WebSocketRead, WebSocketWrite))
        ensures
            r.0.read_half == self.read_half,
            r.1.write_half == self.write_half,
    {
        let (stream, read, write) = self.into_parts_internal();
        let (r, w) = tcp_into_split(stream);
        (WebSocketRead { stream: r, read_half: read }, WebSocketWrite { stream: w, write_half: write })
    }

    /// The underlying stream.
    pub fn into_inner(self) -> (r: TcpStream)
        ensures
            r == self.stream,
    {
        self.stream
    }

    /// The stream and the two halves of the state.
    pub fn into_parts_internal(self) -> (r: (TcpStream, ReadHalf, WriteHalf))
        ensures
            r.0 == self.stream,
            r.1 == self.read_half,
            r.2 == self.write_half,
    {
        (self.stream, self.read_half, self.write_half)
    }

    /// Sets whether large frames go out in vectored writes.
    pub fn set_writev(&mut self, vectored: bool)
        ensures
            final(self).stream == old(self).stream,
            final(self).read_half == old(self).read_half,
            final(self).write_half.closed == closed_after(
                old(self).write_half.closed,
                WriteEvent::SetOption,
            ),
            final(self).write_half == (WriteHalf { vectored, ..old(self).write_half }),
    {
        self.write_half.vectored = vectored;
    }

    pub fn set_writev_threshold(&mut self, threshold: usize)
        ensures
            final(self).stream == old(self).stream,
            final(self).read_half == (ReadHalf {
                writev_threshold: threshold,
                ..old(self).read_half
            }),
            final(self).write_half.closed == closed_after(
                old(self).write_half.closed,
                WriteEvent::SetOption,
            ),
            final(self).write_half == (WriteHalf {
                writev_threshold: threshold,
                ..old(self).write_half
            }),
    {
        self.read_half.writev_threshold = threshold;
        self.write_half.writev_threshold = threshold;
    }

    /// Sets the maximum message size in bytes: a frame that announces a
    /// larger payload, or a message that grows larger, is refused.
    pub fn set_max_message_size(&mut self, max_message_size: usize)
        ensures
            final(self).stream == old(self).stream,
            final(self).write_half == old(self).write_half,
            final(self).write_half.closed == closed_after(
                old(self).write_half.closed,
                WriteEvent::SetOption,
            ),
            final(self).read_half == (ReadHalf { max_message_size, ..old(self).read_half }),
    {
        self.read_half.max_message_size = max_message_size;
    }

    /// Sets whether masking is applied automatically, on both halves.
    pub fn set_auto_apply_mask(&mut self, auto_apply_mask: bool)
        ensures
            final(self).stream == old(self).stream,
            final(self).read_half == (ReadHalf { auto_apply_mask, ..old(self).read_half }),
            final(self).write_half.closed == closed_after(
                old(self).write_half.closed,
                WriteEvent::SetOption,
            ),
            final(self).write_half == (WriteHalf { auto_apply_mask, ..old(self).write_half }),
    {
        self.read_half.auto_apply_mask = auto_apply_mask;
        self.write_half.auto_apply_mask = auto_apply_mask;
    }

    /// Whether a Close frame has been sent.
    pub fn is_closed(&self) -> (r: bool)
        ensures
            r == self.write_half.closed,
    {
        self.write_half.closed
    }
}

} // verus!
