use vstd::prelude::*;
use vstd::utf8::{decode_utf8, valid_utf8};

use bytes::Bytes;

use crate::external::{bytes_contents, bytes_from_vec, string_from_utf8};
use crate::error::WebSocketError;
use crate::frame::OpCode;

verus! {

/// A complete message read from the connection.
#[derive(Debug)]
pub enum Message {
    Text(String),
    Binary(Bytes),
}

/// The payload of a message being assembled from its frames.
#[derive(Debug)]
pub enum MessageBuffer {
    Text(Vec<u8>),
    Binary(Vec<u8>),
}

impl MessageBuffer {
    /// Whether the message is a Text message.
    pub open spec fn is_text(self) -> bool {
        self is Text
    }

    /// The payload bytes gathered so far.
    pub open spec fn content(self) -> Seq<u8> {
        match self {
            MessageBuffer::Text(v) => v@,
            MessageBuffer::Binary(v) => v@,
        }
    }

    /// An empty buffer for a message that starts with a Text or Binary frame.
    pub fn with_capacity(op_code: OpCode, capacity: usize) -> (r: MessageBuffer)
        requires
            op_code == OpCode::Text || op_code == OpCode::Binary,
        ensures
            r.is_text() == (op_code == OpCode::Text),
            r.content() == Seq::<u8>::empty(),
    {
        match op_code {
            OpCode::Text => MessageBuffer::Text(Vec::with_capacity(capacity)),
            _ => MessageBuffer::Binary(Vec::with_capacity(capacity)),
        }
    }

    /// Number of payload bytes gathered so far.
    pub fn len(&self) -> (r: usize)
        ensures
            r == self.content().len(),
    {
        match self {
            MessageBuffer::Text(vec) => vec.len(),
            MessageBuffer::Binary(vec) => vec.len(),
        }
    }

    /// The vector that holds the payload gathered so far.
    pub fn get_inner(&mut self) -> (r: &mut Vec<u8>)
        ensures
            r@ == old(self).content(),
            final(self).is_text() == old(self).is_text(),
            final(self).content() == final(r)@,
    {
        match self {
            MessageBuffer::Binary(vec) => vec,
            MessageBuffer::Text(vec) => vec,
        }
    }

    /// The message that the gathered payload forms: a Binary message holds
    /// the bytes as they are; a Text message holds the characters they
    /// encode in UTF-8, and bytes that are not valid UTF-8 are refused.
    pub fn into_message(self) -> (r: Result<Message, WebSocketError>)
        ensures
            message_of(r, self.is_text(), self.content()),
    {
        match self {
            MessageBuffer::Text(vec) => match string_from_utf8(vec) {
                Ok(s) => Ok(Message::Text(s)),
                Err(_) => Err(WebSocketError::InvalidUTF8),
            },
            MessageBuffer::Binary(vec) => Ok(Message::Binary(bytes_from_vec(vec))),
        }
    }
}

/// `r` is what a buffer of this kind and content forms.
pub open spec fn message_of(r: Result<Message, WebSocketError>, is_text: bool, content: Seq<u8>) -> bool {
    match r {
        Ok(Message::Text(s)) => is_text && valid_utf8(content) && s@ == decode_utf8(content),
        Ok(Message::Binary(b)) => !is_text && bytes_contents(b) == content,
        Err(e) => is_text && !valid_utf8(content) && e == WebSocketError::InvalidUTF8,
    }
}

} // verus!
