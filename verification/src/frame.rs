use vstd::prelude::*;

use crate::error::WebSocketError;
use crate::header::{encode_frame_header, spec_encode_header, u16_be_bytes, HeaderView};
use crate::mask::{apply_mask, unmask};

verus! {

/// The opcodes of RFC 6455, section 5.2.
#[derive(Clone, Copy, Debug, PartialEq, Eq, Structural)]
pub enum OpCode {
    Continuation,
    Text,
    Binary,
    Close,
    Ping,
    Pong,
}

/// The four-bit wire value of an opcode.
pub open spec fn opcode_value(op: OpCode) -> u8 {
    match op {
        OpCode::Continuation => 0x0,
        OpCode::Text => 0x1,
        OpCode::Binary => 0x2,
        OpCode::Close => 0x8,
        OpCode::Ping => 0x9,
        OpCode::Pong => 0xA,
    }
}

/// The opcode that a four-bit wire value names, if any.
pub open spec fn opcode_of_value(v: u8) -> Option<OpCode> {
    if v == 0x0 {
        Some(OpCode::Continuation)
    } else if v == 0x1 {
        Some(OpCode::Text)
    } else if v == 0x2 {
        Some(OpCode::Binary)
    } else if v == 0x8 {
        Some(OpCode::Close)
    } else if v == 0x9 {
        Some(OpCode::Ping)
    } else if v == 0xA {
        Some(OpCode::Pong)
    } else {
        None
    }
}

/// Control frames are Close, Ping and Pong.
pub open spec fn spec_is_control(op: OpCode) -> bool {
    op == OpCode::Close || op == OpCode::Ping || op == OpCode::Pong
}

/// Whether `opcode` is a control opcode.
pub fn is_control(opcode: OpCode) -> (r: bool)
    ensures
        r == spec_is_control(opcode),
{
    match opcode {
        OpCode::Close | OpCode::Ping | OpCode::Pong => true,
        _ => false,
    }
}

impl OpCode {
    /// Decodes a four-bit opcode value.
    pub fn try_from_u8(value: u8) -> (r: Result<OpCode, WebSocketError>)
        ensures
            r == (match opcode_of_value(value) {
                Some(op) => Ok(op),
                None => Err(WebSocketError::InvalidValue),
            }),
    {
        match value {
            0x0 => Ok(OpCode::Continuation),
            0x1 => Ok(OpCode::Text),
            0x2 => Ok(OpCode::Binary),
            0x8 => Ok(OpCode::Close),
            0x9 => Ok(OpCode::Ping),
            0xA => Ok(OpCode::Pong),
            _ => Err(WebSocketError::InvalidValue),
        }
    }

    /// The four-bit wire value of this opcode.
    pub fn as_u8(self) -> (r: u8)
        ensures
            r == opcode_value(self),
    {
        match self {
            OpCode::Continuation => 0x0,
            OpCode::Text => 0x1,
            OpCode::Binary => 0x2,
            OpCode::Close => 0x8,
            OpCode::Ping => 0x9,
            OpCode::Pong => 0xA,
        }
    }
}

/// The payload of a frame.
#[derive(Debug)]
pub enum Payload {
    Owned(Vec<u8>),
}

impl View for Payload {
    type V = Seq<u8>;

    open spec fn view(&self) -> Seq<u8> {
        match self {
            Payload::Owned(v) => v@,
        }
    }
}

impl Payload {
    /// Number of payload bytes.
    pub fn len(&self) -> (r: usize)
        ensures
            r == self@.len(),
    {
        match self {
            Payload::Owned(v) => v.len(),
        }
    }

    /// The payload bytes, owned.
    pub fn extract_owned(self) -> (r: Vec<u8>)
        ensures
            r@ == self@,
    {
        match self {
            Payload::Owned(v) => v,
        }
    }

    /// The payload bytes, borrowed.
    pub fn as_slice(&self) -> (r: &[u8])
        ensures
            r@ == self@,
    {
        match self {
            Payload::Owned(v) => v.as_slice(),
        }
    }
}

/// A frame as a mathematical value.
pub struct FrameView {
    pub fin: bool,
    pub opcode: OpCode,
    pub mask: Option<Seq<u8>>,
    pub payload: Seq<u8>,
}

/// A WebSocket frame.
#[derive(Debug)]
pub struct Frame {
    /// Whether this is the last frame of a message.
    pub fin: bool,
    pub opcode: OpCode,
    /// The masking key announced in the header, if any.
    pub mask: Option<[u8; 4]>,
    pub payload: Payload,
}

impl View for Frame {
    type V = FrameView;

    open spec fn view(&self) -> FrameView {
        FrameView {
            fin: self.fin,
            opcode: self.opcode,
            mask: match self.mask {
                Some(k) => Some(k@),
                None => None,
            },
            payload: self.payload@,
        }
    }
}

/// The header a frame is sent with.
pub open spec fn frame_header_view(f: FrameView) -> HeaderView {
    HeaderView { fin: f.fin, opcode: f.opcode, mask: f.mask, payload_len: f.payload.len() }
}

/// The bytes a frame is sent as: its header, then its payload as it stands.
pub open spec fn spec_frame_bytes(f: FrameView) -> Seq<u8> {
    spec_encode_header(frame_header_view(f)) + f.payload
}

/// A frame after masking: the key it already carries, or else `fresh_key`,
/// becomes its key and is applied to its payload.
pub open spec fn spec_masked(f: FrameView, fresh_key: Seq<u8>) -> FrameView {
    let key = match f.mask {
        Some(k) => k,
        None => fresh_key,
    };
    FrameView { fin: f.fin, opcode: f.opcode, mask: Some(key), payload: apply_mask(f.payload, key) }
}

impl Frame {
    pub fn new(fin: bool, opcode: OpCode, mask: Option<[u8; 4]>, payload: Payload) -> (r: Frame)
        ensures
            r.fin == fin,
            r.opcode == opcode,
            r.mask == mask,
            r.payload@ == payload@,
    {
        Frame { fin, opcode, mask, payload }
    }

    /// A final, unmasked Text frame.
    pub fn text(payload: Payload) -> (r: Frame)
        ensures
            r@ == (FrameView { fin: true, opcode: OpCode::Text, mask: None, payload: payload@ }),
    {
        Frame::new(true, OpCode::Text, None, payload)
    }

    /// A final, unmasked Binary frame.
    pub fn binary(payload: Payload) -> (r: Frame)
        ensures
            r@ == (FrameView { fin: true, opcode: OpCode::Binary, mask: None, payload: payload@ }),
    {
        Frame::new(true, OpCode::Binary, None, payload)
    }

    /// An unmasked Close frame whose payload is a two-byte big-endian status
    /// code followed by `reason`.
    pub fn close(code: u16, reason: &[u8]) -> (r: Frame)
        ensures
            r@ == (FrameView {
                fin: true,
                opcode: OpCode::Close,
                mask: None,
                payload: u16_be_bytes(code) + reason@,
            }),
    {
        let mut payload: Vec<u8> = Vec::with_capacity(2);
        payload.push((code >> 8u16) as u8);
        payload.push(code as u8);
        let mut i: usize = 0;
        while i < reason.len()
            invariant
                0 <= i <= reason@.len(),
                payload@ == u16_be_bytes(code) + reason@.take(i as int),
            decreases reason@.len() - i,
        {
            payload.push(reason[i]);
            i = i + 1;
            assert(reason@.take(i as int) == reason@.take(i - 1).push(reason@[i - 1]));
        }
        assert(reason@.take(reason@.len() as int) =~= reason@);
        Frame::new(true, OpCode::Close, None, Payload::Owned(payload))
    }

    /// An unmasked Close frame with the given payload.
    pub fn close_raw(payload: Payload) -> (r: Frame)
        ensures
            r@ == (FrameView { fin: true, opcode: OpCode::Close, mask: None, payload: payload@ }),
    {
        Frame::new(true, OpCode::Close, None, payload)
    }

    /// An unmasked Ping frame.
    pub fn ping(payload: Payload) -> (r: Frame)
        ensures
            r@ == (FrameView { fin: true, opcode: OpCode::Ping, mask: None, payload: payload@ }),
    {
        Frame::new(true, OpCode::Ping, None, payload)
    }

    /// An unmasked Pong frame.
    pub fn pong(payload: Payload) -> (r: Frame)
        ensures
            r@ == (FrameView { fin: true, opcode: OpCode::Pong, mask: None, payload: payload@ }),
    {
        Frame::new(true, OpCode::Pong, None, payload)
    }

    /// Masks the payload: with the key the frame already carries, or else
    /// with `fresh_key`, which then becomes the frame's key.
    pub fn mask(&mut self, fresh_key: [u8; 4])
        ensures
            final(self)@ == spec_masked(old(self)@, fresh_key@),
    {
        let key = match self.mask {
            Some(k) => k,
            None => fresh_key,
        };
        match &mut self.payload {
            Payload::Owned(v) => unmask(v.as_mut_slice(), key),
        }
        self.mask = Some(key);
    }

    /// Removes the masking from the payload if the frame carries a key; the
    /// key stays recorded in the frame.
    pub fn unmask(&mut self)
        ensures
            final(self).fin == old(self).fin,
            final(self).opcode == old(self).opcode,
            final(self).mask == old(self).mask,
            final(self).payload@ == (match old(self).mask {
                Some(k) => apply_mask(old(self).payload@, k@),
                None => old(self).payload@,
            }),
    {
        match self.mask {
            Some(k) => match &mut self.payload {
                Payload::Owned(v) => unmask(v.as_mut_slice(), k),
            },
            None => {},
        }
    }

    /// The header of this frame in wire form.
    pub fn fmt_head(&self) -> (r: Vec<u8>)
        ensures
            r@ == spec_encode_header(frame_header_view(self@)),
    {
        encode_frame_header(self.fin, self.opcode, self.mask, self.payload.len())
    }

    /// Replaces the contents of `buf` with this frame in wire form: header,
    /// then payload.
    pub fn write(&self, buf: &mut Vec<u8>)
        ensures
            final(buf)@ == spec_frame_bytes(self@),
    {
        let head = self.fmt_head();
        buf.clear();
        let payload = self.payload.as_slice();
        let mut i: usize = 0;
        while i < head.len()
            invariant
                0 <= i <= head@.len(),
                buf@ == head@.take(i as int),
            decreases head@.len() - i,
        {
            buf.push(head[i]);
            i = i + 1;
            assert(head@.take(i as int) == head@.take(i - 1).push(head@[i - 1]));
        }
        let mut j: usize = 0;
        while j < payload.len()
            invariant
                0 <= j <= payload@.len(),
                payload@ == self.payload@,
                buf@ == head@ + payload@.take(j as int),
            decreases payload@.len() - j,
        {
            buf.push(payload[j]);
            j = j + 1;
            assert(payload@.take(j as int) == payload@.take(j - 1).push(payload@[j - 1]));
        }
        assert(head@.take(head@.len() as int) =~= head@);
        assert(payload@.take(payload@.len() as int) =~= payload@);
    }
}

} // verus!
