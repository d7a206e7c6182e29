use vstd::prelude::*;

verus! {

/// Errors of the WebSocket protocol layer.
///
/// Failures of the transport itself (I/O errors) and errors raised by the
/// caller's control-frame handler are not protocol decisions and are carried
/// by the asynchronous front end, not by this type.
#[derive(Debug, Clone, Copy, PartialEq, Eq, Structural)]
pub enum WebSocketError {
    /// The write half already sent a Close frame.
    ConnectionClosed,
    /// The stream ended before the announced bytes arrived.
    UnexpectedEOF,
    /// One of the three RSV bits of the first header byte is set.
    ReservedBitsNotZero,
    /// The opcode nibble names no opcode of RFC 6455.
    InvalidValue,
    /// A control frame arrived without its FIN bit.
    ControlFrameFragmented,
    /// A control frame (Close, Ping, Pong) announced more than 125 payload
    /// bytes.
    ControlFrameTooLarge,
    /// A frame announced a payload larger than the configured maximum, or
    /// one that does not fit the machine's `usize`, or a data frame would
    /// take the message in progress past the maximum.
    FrameTooLarge,
    /// A Continuation frame arrived with no message in progress.
    InvalidContinuationFrame,
    /// The payload of a Text message is not valid UTF-8.
    InvalidUTF8,
    /// A vectored write of a fragmented message sent fewer bytes than the
    /// message holds.
    IncompleteSend { sent: usize, expected: usize },
}

} // verus!
