use vstd::prelude::*;
use vstd::utf8::encode_utf8;

use bytes::{Bytes, BytesMut};

use crate::controle_frame::ControlFrame;
use crate::error::WebSocketError;
use crate::frame::{
    frame_header_view, is_control, spec_frame_bytes, spec_is_control, spec_masked, Frame, FrameView,
    OpCode, Payload,
};
use crate::external::{
    bytes_as_slice, bytes_contents, bytes_mut_advance, bytes_mut_as_slice, bytes_mut_contents,
    bytes_mut_with_capacity,
};
use crate::header::{
    decode_frame_header, header_acceptable, lemma_encode_then_parse, spec_encode_header,
    spec_length_bytes, spec_parse_header, HeaderView,
};
use crate::mask::{apply_mask, lemma_mask_involution, lemma_mask_key_stream, unmask};
use crate::message_in::{message_of, Message, MessageBuffer};
use crate::message_out::{
    fragments_content, lemma_fragments_content_prefix_len, lemma_fragments_content_step,
    MessageOut,
};
use crate::Role;

verus! {

/// The default maximum message size: 64 MiB.
pub const DEFAULT_MAX_MESSAGE_SIZE: usize = 67108864;

/// The default payload size above which a frame is sent with a vectored
/// write.
pub const DEFAULT_WRITEV_THRESHOLD: usize = 1024;

/* ---- the write half ---- */

/// What the transport has to send for a frame.
#[derive(Debug)]
pub enum FrameWrite {
    /// Nothing: the frame is a Close frame repeated after the first one.
    Nothing,
    /// The header, then the payload, in one vectored write.
    Vectored { header: Vec<u8>, payload: Vec<u8> },
    /// The write buffer of the write half, which holds the whole frame.
    Buffered,
}

/// What the transport has to send for a message, in one vectored write.
#[derive(Debug)]
pub enum MessageWrite {
    /// Nothing: the message is a Close message repeated after the first one.
    Nothing,
    /// The header, then the payload.
    Single { header: Vec<u8>, payload: Vec<u8> },
    /// The header, then each of the pieces.
    Fragmented { header: Vec<u8>, fragments: Vec<Bytes> },
}

/// The sending side of a connection: its role and options, whether it has
/// sent a Close frame, and a reusable buffer for whole frames.
pub struct WriteHalf {
    pub role: Role,
    pub closed: bool,
    pub vectored: bool,
    pub auto_apply_mask: bool,
    pub writev_threshold: usize,
    pub write_buffer: Vec<u8>,
}

/// A step in the life of a write half, as far as closing goes: sending a
/// frame or message (a Close one or not), or setting an option.
pub enum WriteEvent {
    Send { is_close: bool },
    SetOption,
}

/// Whether the write half is closed after an event.
pub open spec fn closed_after(closed: bool, event: WriteEvent) -> bool {
    match event {
        WriteEvent::Send { is_close } => closed || is_close,
        WriteEvent::SetOption => closed,
    }
}

/// Whether the write half is closed after the events in order.
pub open spec fn closed_after_all(closed: bool, events: Seq<WriteEvent>) -> bool
    decreases events.len(),
{
    if events.len() == 0 {
        closed
    } else {
        closed_after(closed_after_all(closed, events.drop_last()), events.last())
    }
}

/// Law (closing): a write half is closed after a sequence of sends and
/// option changes exactly when it was closed before or one of them sent a
/// Close frame; once closed, it stays closed, and setting options never
/// closes it.
pub proof fn lemma_closed_exactly_after_close(closed: bool, events: Seq<WriteEvent>)
    ensures
        closed_after_all(closed, events) == (closed || exists|i: int|
            0 <= i < events.len() && events[i] == (WriteEvent::Send { is_close: true })),
    decreases events.len(),
{
    if events.len() > 0 {
        let rest = events.drop_last();
        lemma_closed_exactly_after_close(closed, rest);
        if closed_after_all(closed, events) && !closed {
            if closed_after_all(closed, rest) {
                let i = choose|i: int|
                    0 <= i < rest.len() && rest[i] == (WriteEvent::Send { is_close: true });
                assert(events[i] == rest[i]);
            } else {
                assert(events[events.len() - 1] == (WriteEvent::Send { is_close: true }));
            }
        }
        if !closed_after_all(closed, events) {
            assert forall|i: int| 0 <= i < events.len() implies events[i] != (WriteEvent::Send {
                is_close: true,
            }) by {
                if i < rest.len() {
                    assert(events[i] == rest[i]);
                }
            }
        }
    }
}

/// A payload with the key applied, or as it is when there is no key.
pub open spec fn keyed(payload: Seq<u8>, key: Option<Seq<u8>>) -> Seq<u8> {
    match key {
        Some(k) => apply_mask(payload, k),
        None => payload,
    }
}

impl WriteHalf {
    /// A write half for a connection whose handshake is done: open,
    /// vectored writes above 1024 bytes, masking applied by a client.
    pub fn after_handshake(role: Role) -> (r: WriteHalf)
        ensures
            r.is_after_handshake(role),
    {
        WriteHalf {
            role,
            closed: false,
            auto_apply_mask: true,
            vectored: true,
            writev_threshold: DEFAULT_WRITEV_THRESHOLD,
            write_buffer: Vec::with_capacity(2),
        }
    }

    /// The state of a fresh write half: open, vectored writes above 1024
    /// bytes, masking on, an empty buffer.
    pub open spec fn is_after_handshake(self, role: Role) -> bool {
        &&& self.role == role
        &&& !self.closed
        &&& self.auto_apply_mask
        &&& self.vectored
        &&& self.writev_threshold == DEFAULT_WRITEV_THRESHOLD
        &&& self.write_buffer@ == Seq::<u8>::empty()
    }

    /// Whether this half masks what it sends (RFC 6455 asks it of clients).
    pub open spec fn masks_outgoing(self) -> bool {
        self.role == Role::Client && self.auto_apply_mask
    }

    /// The frame as it is sent: masked when this half masks.
    pub open spec fn outgoing_frame(self, frame: FrameView, fresh_key: Seq<u8>) -> FrameView {
        if self.masks_outgoing() {
            spec_masked(frame, fresh_key)
        } else {
            frame
        }
    }

    /// The key that a message is sent with.
    pub open spec fn message_key(self, fresh_key: Seq<u8>) -> Option<Seq<u8>> {
        if self.masks_outgoing() {
            Some(fresh_key)
        } else {
            None
        }
    }

    /// The options of the half are the same in both states.
    pub open spec fn same_options(self, other: WriteHalf) -> bool {
        &&& self.role == other.role
        &&& self.vectored == other.vectored
        &&& self.auto_apply_mask == other.auto_apply_mask
        &&& self.writev_threshold == other.writev_threshold
    }

    /// Prepares a frame for sending. A client that masks masks the frame,
    /// with its own key or else `fresh_key`. Once a Close frame has been
    /// sent, a further Close frame is a no-op and any other frame is
    /// refused; sending a Close frame closes the half. A frame whose payload
    /// exceeds the threshold goes out in a vectored write when those are on;
    /// any other is written whole into the write buffer.
    pub fn write_frame(&mut self, frame: Frame, fresh_key: [u8; 4]) -> (r: Result<
        FrameWrite,
        WebSocketError,
    >)
        ensures
            final(self).same_options(*old(self)),
            final(self).closed == closed_after(
                old(self).closed,
                WriteEvent::Send { is_close: frame.opcode == OpCode::Close },
            ),
            old(self).closed ==> final(self).closed && final(self).write_buffer == old(
                self,
            ).write_buffer && r == (if frame.opcode == OpCode::Close {
                Ok::<FrameWrite, WebSocketError>(FrameWrite::Nothing)
            } else {
                Err::<FrameWrite, WebSocketError>(WebSocketError::ConnectionClosed)
            }),
            !old(self).closed ==> final(self).closed == (frame.opcode == OpCode::Close) && (
            r matches Ok(w) && !(w is Nothing) && (w is Vectored <==> (old(self).vectored
                && frame.payload@.len() > old(self).writev_threshold))),
            r matches Ok(FrameWrite::Vectored { header, payload }) ==> {
                let f = old(self).outgoing_frame(frame@, fresh_key@);
                &&& header@ == spec_encode_header(frame_header_view(f))
                &&& payload@ == f.payload
                &&& final(self).write_buffer == old(self).write_buffer
            },
            r matches Ok(FrameWrite::Buffered) ==> final(self).write_buffer@ == spec_frame_bytes(
                old(self).outgoing_frame(frame@, fresh_key@),
            ),
    {
        let mut frame = frame;
        if self.role == Role::Client && self.auto_apply_mask {
            frame.mask(fresh_key);
        }
        if self.closed {
            if frame.opcode == OpCode::Close {
                return Ok(FrameWrite::Nothing);
            }
            return Err(WebSocketError::ConnectionClosed);
        }
        let is_close = frame.opcode == OpCode::Close;
        if is_close {
            self.closed = true;
        }
        if self.vectored && frame.payload.len() > self.writev_threshold {
            let header = frame.fmt_head();
            Ok(FrameWrite::Vectored { header, payload: frame.payload.extract_owned() })
        } else {
            frame.write(&mut self.write_buffer);
            Ok(FrameWrite::Buffered)
        }
    }

    /// Prepares a message for sending, as one final frame. A client that
    /// masks masks it with `fresh_key`; the pieces of a fragmented message
    /// are then joined into one. Closing works as for frames.
    pub fn write_message(&mut self, message: MessageOut, fresh_key: [u8; 4]) -> (r: Result<
        MessageWrite,
        WebSocketError,
    >)
        requires
            message.payload_view().len() <= usize::MAX,
        ensures
            final(self).same_options(*old(self)),
            final(self).write_buffer == old(self).write_buffer,
            final(self).closed == closed_after(
                old(self).closed,
                WriteEvent::Send { is_close: message is Close },
            ),
            old(self).closed ==> final(self).closed && r == (if message is Close {
                Ok::<MessageWrite, WebSocketError>(MessageWrite::Nothing)
            } else {
                Err::<MessageWrite, WebSocketError>(WebSocketError::ConnectionClosed)
            }),
            !old(self).closed ==> final(self).closed == (message is Close) && (r matches Ok(w) && (
            w is Single <==> !(message is FragmentedBinary)) && (w is Fragmented <==> (
            message is FragmentedBinary))),
            r matches Ok(MessageWrite::Single { header, payload }) ==> {
                let key = old(self).message_key(fresh_key@);
                &&& header@ == spec_encode_header(
                    HeaderView {
                        fin: true,
                        opcode: message.frame_opcode(),
                        mask: key,
                        payload_len: message.payload_view().len(),
                    },
                )
                &&& payload@ == keyed(message.payload_view(), key)
                &&& header@ + payload@ == message_wire(*old(self), message, fresh_key@)
            },
            r matches Ok(MessageWrite::Fragmented { header, fragments }) ==> {
                let key = old(self).message_key(fresh_key@);
                &&& header@ == spec_encode_header(
                    HeaderView {
                        fin: true,
                        opcode: OpCode::Binary,
                        mask: key,
                        payload_len: message.payload_view().len(),
                    },
                )
                &&& fragments_content(fragments@) == keyed(message.payload_view(), key)
                &&& key is None ==> fragments@ == message.pieces()
                &&& key is Some ==> fragments@.len() == 1
                &&& header@ + fragments_content(fragments@) == message_wire(
                    *old(self),
                    message,
                    fresh_key@,
                )
            },
    {
        let is_close = message.is_close();
        if self.closed {
            if is_close {
                return Ok(MessageWrite::Nothing);
            }
            return Err(WebSocketError::ConnectionClosed);
        }
        if is_close {
            self.closed = true;
        }
        let masks = self.role == Role::Client && self.auto_apply_mask;
        if !message.is_fragmented() {
            let mut frame = message.to_single_frame(None);
            if masks {
                frame.mask(fresh_key);
            }
            let header = frame.fmt_head();
            Ok(MessageWrite::Single { header, payload: frame.payload.extract_owned() })
        } else {
            let mask = if masks {
                Some(fresh_key)
            } else {
                None
            };
            let message = message.apply_mask(mask);
            let header = message.build_header_for_fragmented_message(&mask);
            match message {
                MessageOut::FragmentedBinary(fragments) => Ok(
                    MessageWrite::Fragmented { header, fragments },
                ),
                _ => Ok(MessageWrite::Nothing),
            }
        }
    }
}

impl MessageWrite {
    /// The number of bytes this write sends.
    pub open spec fn wire_len(self) -> nat {
        match self {
            MessageWrite::Nothing => 0,
            MessageWrite::Single { header, payload } => header@.len() + payload@.len(),
            MessageWrite::Fragmented { header, fragments } => header@.len() + fragments_content(
                fragments@,
            ).len(),
        }
    }

    /// The outcome of the one vectored write that sends this: anything
    /// short of the whole of it is an error, which reports the bytes sent
    /// and the bytes expected (at most `usize::MAX`).
    pub fn check_sent(&self, sent: usize) -> (r: Result<(), WebSocketError>)
        ensures
            r == (if sent == self.wire_len() {
                Ok::<(), WebSocketError>(())
            } else {
                Err::<(), WebSocketError>(
                    WebSocketError::IncompleteSend {
                        sent,
                        expected: if self.wire_len() <= usize::MAX {
                            self.wire_len() as usize
                        } else {
                            usize::MAX
                        },
                    },
                )
            }),
    {
        let expected: Option<usize> = match self {
            MessageWrite::Nothing => Some(0),
            MessageWrite::Single { header, payload } => header.len().checked_add(payload.len()),
            MessageWrite::Fragmented { header, fragments } => {
                let mut total: usize = header.len();
                let mut i: usize = 0;
                let mut overflow = false;
                assert(fragments@.take(0) =~= Seq::<Bytes>::empty());
                while i < fragments.len()
                    invariant
                        0 <= i <= fragments@.len(),
                        !overflow ==> total == header@.len() + fragments_content(
                            fragments@.take(i as int),
                        ).len(),
                        overflow ==> header@.len() + fragments_content(fragments@).len()
                            > usize::MAX,
                    decreases fragments@.len() - i,
                {
                    proof {
                        lemma_fragments_content_step(fragments@, i as int);
                        lemma_fragments_content_prefix_len(fragments@, i + 1);
                    }
                    if !overflow {
                        let n = bytes_as_slice(&fragments[i]).len();
                        match total.checked_add(n) {
                            Some(t) => total = t,
                            None => overflow = true,
                        }
                    }
                    i = i + 1;
                }
                assert(fragments@.take(i as int) =~= fragments@);
                if overflow {
                    None
                } else {
                    Some(total)
                }
            },
        };
        match expected {
            Some(e) => if sent == e {
                Ok(())
            } else {
                Err(WebSocketError::IncompleteSend { sent, expected: e })
            },
            None => Err(WebSocketError::IncompleteSend { sent, expected: usize::MAX }),
        }
    }
}

/* ---- the read half ---- */

/// Whether the message in progress is text, and its payload so far.
pub open spec fn buffer_state(b: Option<MessageBuffer>) -> Option<(bool, Seq<u8>)> {
    match b {
        Some(mb) => Some((mb.is_text(), mb.content())),
        None => None,
    }
}

/// Number of payload bytes in a message state.
pub open spec fn state_len(state: Option<(bool, Seq<u8>)>) -> nat {
    match state {
        Some((_, content)) => content.len(),
        None => 0,
    }
}

/// The next frame at the front of the bytes received so far: `Ok(None)`
/// when its header or payload has not fully arrived, else its header's
/// length and value, or the error its header meets.
pub open spec fn spec_next_frame(s: Seq<u8>, max_message_size: usize) -> Result<
    Option<(nat, HeaderView)>,
    WebSocketError,
> {
    match spec_parse_header(s, max_message_size) {
        Err(WebSocketError::UnexpectedEOF) => Ok(None),
        Err(e) => Err(e),
        Ok((n, h)) => if s.len() < n + h.payload_len {
            Ok(None)
        } else {
            Ok(Some((n, h)))
        },
    }
}

/// The receiving side of a connection: its role and options, and the bytes
/// received but not yet taken in.
pub struct ReadHalf {
    pub role: Role,
    pub auto_apply_mask: bool,
    pub writev_threshold: usize,
    pub max_message_size: usize,
    pub buffer: BytesMut,
}

impl ReadHalf {
    /// A read half for a connection whose handshake is done: unmasking on,
    /// messages of up to 64 MiB, nothing received yet.
    pub fn after_handshake(role: Role) -> (r: ReadHalf)
        ensures
            r.is_after_handshake(role),
    {
        ReadHalf {
            role,
            auto_apply_mask: true,
            writev_threshold: DEFAULT_WRITEV_THRESHOLD,
            max_message_size: DEFAULT_MAX_MESSAGE_SIZE,
            buffer: bytes_mut_with_capacity(8192),
        }
    }

    /// The state of a fresh read half: unmasking on, messages of up to
    /// 64 MiB, nothing received.
    pub open spec fn is_after_handshake(self, role: Role) -> bool {
        &&& self.role == role
        &&& self.auto_apply_mask
        &&& self.writev_threshold == DEFAULT_WRITEV_THRESHOLD
        &&& self.max_message_size == DEFAULT_MAX_MESSAGE_SIZE
        &&& bytes_mut_contents(self.buffer) == Seq::<u8>::empty()
    }

    /// The options of the half are the same in both states.
    pub open spec fn same_options(self, other: ReadHalf) -> bool {
        &&& self.role == other.role
        &&& self.auto_apply_mask == other.auto_apply_mask
        &&& self.writev_threshold == other.writev_threshold
        &&& self.max_message_size == other.max_message_size
    }

    /// Whether this half removes the masking of what it receives.
    pub open spec fn unmasks_incoming(self) -> bool {
        self.role == Role::Server && self.auto_apply_mask
    }

    /// The payload as this half hands it on: unmasked when it unmasks and
    /// the frame carries a key.
    pub open spec fn received_payload(self, h: HeaderView, payload: Seq<u8>) -> Seq<u8> {
        if self.unmasks_incoming() {
            keyed(payload, h.mask)
        } else {
            payload
        }
    }

    /// A data frame with this payload would take the message in progress
    /// past the maximum message size.
    pub open spec fn spec_refuses(
        self,
        state: Option<(bool, Seq<u8>)>,
        h: HeaderView,
        payload: Seq<u8>,
    ) -> bool {
        !spec_is_control(h.opcode) && state_len(state) + payload.len() > self.max_message_size
    }

    /// The state of the message in progress after taking in a frame with
    /// this header and payload: control frames leave it as it is; a data
    /// frame's payload, as handed on, is appended, and a data frame starts
    /// the message when there is none.
    pub open spec fn spec_accept(
        self,
        state: Option<(bool, Seq<u8>)>,
        h: HeaderView,
        payload: Seq<u8>,
    ) -> Option<(bool, Seq<u8>)> {
        if spec_is_control(h.opcode) {
            state
        } else {
            let p = self.received_payload(h, payload);
            match state {
                Some((is_text, content)) => Some((is_text, content + p)),
                None => Some((h.opcode == OpCode::Text, p)),
            }
        }
    }

    /// The state of the message in progress after taking in the frames in
    /// order.
    pub open spec fn spec_accept_all(
        self,
        state: Option<(bool, Seq<u8>)>,
        frames: Seq<(HeaderView, Seq<u8>)>,
    ) -> Option<(bool, Seq<u8>)>
        decreases frames.len(),
    {
        if frames.len() == 0 {
            state
        } else {
            self.spec_accept(
                self.spec_accept_all(state, frames.drop_last()),
                frames.last().0,
                frames.last().1,
            )
        }
    }

    /// The payloads of the data frames among `frames`, as handed on, one
    /// after the other.
    pub open spec fn data_payloads(self, frames: Seq<(HeaderView, Seq<u8>)>) -> Seq<u8>
        decreases frames.len(),
    {
        if frames.len() == 0 {
            Seq::empty()
        } else if spec_is_control(frames.last().0.opcode) {
            self.data_payloads(frames.drop_last())
        } else {
            self.data_payloads(frames.drop_last()) + self.received_payload(
                frames.last().0,
                frames.last().1,
            )
        }
    }

    /// A frame can be taken in: it is a control frame, or a message is in
    /// progress, or it starts one (Text or Binary).
    pub open spec fn can_take(self, state: Option<(bool, Seq<u8>)>, h: HeaderView) -> bool {
        spec_is_control(h.opcode) || state is Some || h.opcode == OpCode::Text || h.opcode
            == OpCode::Binary
    }

    /// Takes the next whole frame out of the bytes received so far, its
    /// payload as it was sent. When its header or payload has not fully
    /// arrived, nothing changes and the result asks for more bytes, or, once
    /// the stream has ended, is `UnexpectedEOF`. When its header is refused,
    /// nothing changes and the result is that error.
    pub fn parse_frame_header(&mut self, stream_ended: bool) -> (r: Result<
        Option<Frame>,
        WebSocketError,
    >)
        ensures
            final(self).same_options(*old(self)),
            ({
                let s = bytes_mut_contents(old(self).buffer);
                match spec_next_frame(s, old(self).max_message_size) {
                    Err(e) => {
                        &&& r == Err::<Option<Frame>, WebSocketError>(e)
                        &&& final(self).buffer == old(self).buffer
                    },
                    Ok(None) => {
                        &&& r == (if stream_ended {
                            Err::<Option<Frame>, WebSocketError>(WebSocketError::UnexpectedEOF)
                        } else {
                            Ok::<Option<Frame>, WebSocketError>(None)
                        })
                        &&& final(self).buffer == old(self).buffer
                    },
                    Ok(Some((n, h))) => {
                        let end = n + h.payload_len;
                        &&& r matches Ok(Some(f)) && f@ == (FrameView {
                            fin: h.fin,
                            opcode: h.opcode,
                            mask: h.mask,
                            payload: s.subrange(n as int, end as int),
                        })
                        &&& bytes_mut_contents(final(self).buffer) == s.skip(end as int)
                    },
                }
            }),
    {
        let received = bytes_mut_as_slice(&self.buffer);
        let parsed = decode_frame_header(received, self.max_message_size);
        let (n, header) = match parsed {
            Ok(x) => x,
            Err(WebSocketError::UnexpectedEOF) => {
                return if stream_ended {
                    Err(WebSocketError::UnexpectedEOF)
                } else {
                    Ok(None)
                };
            },
            Err(e) => return Err(e),
        };
        if received.len() - n < header.payload_len {
            return if stream_ended {
                Err(WebSocketError::UnexpectedEOF)
            } else {
                Ok(None)
            };
        }
        let end = n + header.payload_len;
        let mut payload: Vec<u8> = Vec::with_capacity(header.payload_len);
        let mut i: usize = n;
        while i < end
            invariant
                n <= i <= end,
                end <= received@.len(),
                payload@ == received@.subrange(n as int, i as int),
            decreases end - i,
        {
            payload.push(received[i]);
            i = i + 1;
            assert(received@.subrange(n as int, i as int) =~= received@.subrange(
                n as int,
                i - 1,
            ).push(received@[i - 1]));
        }
        bytes_mut_advance(&mut self.buffer, end);
        Ok(Some(Frame::new(header.fin, header.opcode, header.mask, Payload::Owned(payload))))
    }

    /// Takes in a frame that has been read. The payload is unmasked when
    /// this half unmasks. A control frame is handed back, the message in
    /// progress untouched. A Continuation frame with no message in progress
    /// is refused, and so is a data frame that would take the message in
    /// progress past the maximum message size. A data frame's payload is
    /// appended to the message in progress, which a Text or Binary frame
    /// starts when there is none; the result says whether the frame was the
    /// last of its message.
    pub fn accept_frame(&self, frame: Frame, message_buffer: &mut Option<MessageBuffer>) -> (r:
        Result<(bool, Option<ControlFrame>), WebSocketError>)
        ensures
            ({
                let h = frame_header_view(frame@);
                let state = buffer_state(*old(message_buffer));
                if !self.can_take(state, h) {
                    &&& r == Err::<(bool, Option<ControlFrame>), WebSocketError>(
                        WebSocketError::InvalidContinuationFrame,
                    )
                    &&& *final(message_buffer) == *old(message_buffer)
                } else if self.spec_refuses(state, h, frame@.payload) {
                    &&& r == Err::<(bool, Option<ControlFrame>), WebSocketError>(
                        WebSocketError::FrameTooLarge,
                    )
                    &&& *final(message_buffer) == *old(message_buffer)
                } else {
                    &&& r matches Ok((done, control)) && {
                        &&& spec_is_control(h.opcode) ==> !done && (control matches Some(cf)
                            && cf.kind() == h.opcode && cf.payload_view()
                            == self.received_payload(h, frame@.payload))
                        &&& !spec_is_control(h.opcode) ==> done == h.fin && control is None
                    }
                    &&& buffer_state(*final(message_buffer)) == self.spec_accept(
                        state,
                        h,
                        frame@.payload,
                    )
                }
            }),
    {
        let mut frame = frame;
        if self.role == Role::Server && self.auto_apply_mask {
            frame.unmask();
        }
        let fin = frame.fin;
        let opcode = frame.opcode;
        let mut payload = frame.payload.extract_owned();
        if is_control(opcode) {
            return Ok((false, Some(ControlFrame::new(opcode, payload))));
        }
        if message_buffer.is_none() && opcode != OpCode::Text && opcode != OpCode::Binary {
            return Err(WebSocketError::InvalidContinuationFrame);
        }
        let current_len: usize = match message_buffer {
            Some(b) => b.len(),
            None => 0,
        };
        if payload.len() > self.max_message_size || current_len > self.max_message_size
            - payload.len() {
            return Err(WebSocketError::FrameTooLarge);
        }
        let mut current = match message_buffer.take() {
            Some(b) => b,
            None => MessageBuffer::with_capacity(opcode, payload.len()),
        };
        current.get_inner().append(&mut payload);
        *message_buffer = Some(current);
        Ok((fin, None))
    }

    /// Reads the next frame from the bytes received so far and takes it in:
    /// `parse_frame_header`, then `accept_frame`. The frame's bytes leave
    /// the buffer once it has fully arrived and its header is accepted, even
    /// when `accept_frame` then refuses it.
    pub fn read_frame_inner(
        &mut self,
        message_buffer: &mut Option<MessageBuffer>,
        stream_ended: bool,
    ) -> (r: Result<Option<(bool, Option<ControlFrame>)>, WebSocketError>)
        ensures
            final(self).same_options(*old(self)),
            ({
                let s = bytes_mut_contents(old(self).buffer);
                let state = buffer_state(*old(message_buffer));
                match spec_next_frame(s, old(self).max_message_size) {
                    Err(e) => {
                        &&& r == Err::<Option<(bool, Option<ControlFrame>)>, WebSocketError>(e)
                        &&& final(self).buffer == old(self).buffer
                        &&& *final(message_buffer) == *old(message_buffer)
                    },
                    Ok(None) => {
                        &&& r == (if stream_ended {
                            Err::<Option<(bool, Option<ControlFrame>)>, WebSocketError>(
                                WebSocketError::UnexpectedEOF,
                            )
                        } else {
                            Ok::<Option<(bool, Option<ControlFrame>)>, WebSocketError>(None)
                        })
                        &&& final(self).buffer == old(self).buffer
                        &&& *final(message_buffer) == *old(message_buffer)
                    },
                    Ok(Some((n, h))) => {
                        let end = n + h.payload_len;
                        let payload = s.subrange(n as int, end as int);
                        &&& bytes_mut_contents(final(self).buffer) == s.skip(end as int)
                        &&& if !old(self).can_take(state, h) {
                            &&& r == Err::<Option<(bool, Option<ControlFrame>)>, WebSocketError>(
                                WebSocketError::InvalidContinuationFrame,
                            )
                            &&& *final(message_buffer) == *old(message_buffer)
                        } else if old(self).spec_refuses(state, h, payload) {
                            &&& r == Err::<Option<(bool, Option<ControlFrame>)>, WebSocketError>(
                                WebSocketError::FrameTooLarge,
                            )
                            &&& *final(message_buffer) == *old(message_buffer)
                        } else {
                            &&& r matches Ok(Some((done, control))) && {
                                &&& spec_is_control(h.opcode) ==> !done && (control matches Some(
                                    cf,
                                ) && cf.kind() == h.opcode && cf.payload_view()
                                    == old(self).received_payload(h, payload))
                                &&& !spec_is_control(h.opcode) ==> done == h.fin && control is None
                            }
                            &&& buffer_state(*final(message_buffer)) == old(self).spec_accept(
                                state,
                                h,
                                payload,
                            )
                        }
                    },
                }
            }),
    {
        let frame = match self.parse_frame_header(stream_ended) {
            Ok(Some(f)) => f,
            Ok(None) => return Ok(None),
            Err(e) => return Err(e),
        };
        match self.accept_frame(frame, message_buffer) {
            Ok(x) => Ok(Some(x)),
            Err(e) => Err(e),
        }
    }
}

/* ---- laws of the connection ---- */

/// Law (a message goes on with its data frames): taking in frames after a
/// message has started appends the payloads of the data frames among them,
/// as handed on, and keeps the message's kind; control frames leave it
/// untouched.
pub proof fn lemma_accept_all_appends(
    reader: ReadHalf,
    is_text: bool,
    content: Seq<u8>,
    frames: Seq<(HeaderView, Seq<u8>)>,
)
    ensures
        reader.spec_accept_all(Some((is_text, content)), frames) == Some(
            (is_text, content + reader.data_payloads(frames)),
        ),
    decreases frames.len(),
{
    if frames.len() == 0 {
        assert(content + Seq::<u8>::empty() =~= content);
    } else {
        lemma_accept_all_appends(reader, is_text, content, frames.drop_last());
        let before = reader.data_payloads(frames.drop_last());
        let (h, p) = frames.last();
        if !spec_is_control(h.opcode) {
            let q = reader.received_payload(h, p);
            assert((content + before) + q =~= content + (before + q));
        }
    }
}

/// Law (a message is its data frames joined): a message that starts with a
/// Text or Binary frame is, after any further frames, the payloads of its
/// data frames, as handed on, one after the other; it is text exactly when
/// its first frame is Text.
pub proof fn lemma_message_assembly(reader: ReadHalf, frames: Seq<(HeaderView, Seq<u8>)>)
    requires
        frames.len() > 0,
        frames[0].0.opcode == OpCode::Text || frames[0].0.opcode == OpCode::Binary,
    ensures
        reader.spec_accept_all(None, frames) == Some(
            (frames[0].0.opcode == OpCode::Text, reader.data_payloads(frames)),
        ),
    decreases frames.len(),
{
    let rest = frames.drop_last();
    if frames.len() == 1 {
        assert(rest =~= Seq::<(HeaderView, Seq<u8>)>::empty());
        assert(reader.data_payloads(rest) == Seq::<u8>::empty());
        let q = reader.received_payload(frames[0].0, frames[0].1);
        assert(Seq::<u8>::empty() + q =~= q);
    } else {
        assert(rest[0] == frames[0]);
        lemma_message_assembly(reader, rest);
        let (h, p) = frames.last();
        if !spec_is_control(h.opcode) {
            let q = reader.received_payload(h, p);
            assert(reader.data_payloads(frames) == reader.data_payloads(rest) + q);
        }
    }
}

proof fn lemma_keyed_len(payload: Seq<u8>, key: Option<Seq<u8>>)
    ensures
        keyed(payload, key).len() == payload.len(),
{
}

proof fn lemma_state_len(reader: ReadHalf, frames: Seq<(HeaderView, Seq<u8>)>)
    ensures
        state_len(reader.spec_accept_all(None, frames)) == reader.data_payloads(frames).len(),
    decreases frames.len(),
{
    if frames.len() > 0 {
        lemma_state_len(reader, frames.drop_last());
    }
}

proof fn lemma_data_payloads_step(reader: ReadHalf, frames: Seq<(HeaderView, Seq<u8>)>, i: int)
    requires
        0 <= i < frames.len(),
    ensures
        reader.data_payloads(frames.take(i + 1)).len() == reader.data_payloads(frames.take(i)).len()
            + (if spec_is_control(frames[i].0.opcode) {
            0
        } else {
            frames[i].1.len()
        }),
{
    assert(frames.take(i + 1).drop_last() =~= frames.take(i));
    let (h, p) = frames[i];
    lemma_keyed_len(p, h.mask);
}

proof fn lemma_data_payloads_prefix_len(reader: ReadHalf, frames: Seq<(HeaderView, Seq<u8>)>, i: int)
    requires
        0 <= i <= frames.len(),
    ensures
        reader.data_payloads(frames.take(i)).len() <= reader.data_payloads(frames).len(),
    decreases frames.len() - i,
{
    if i < frames.len() {
        lemma_data_payloads_step(reader, frames, i);
        lemma_data_payloads_prefix_len(reader, frames, i + 1);
    } else {
        assert(frames.take(i) =~= frames);
    }
}

/// Law (the maximum message size): of the frames of a message read one
/// after the other, none is refused for size when the message's data
/// payloads together are within the maximum, and some data frame is refused
/// when they exceed it.
pub proof fn lemma_message_size_limit(reader: ReadHalf, frames: Seq<(HeaderView, Seq<u8>)>)
    ensures
        reader.data_payloads(frames).len() <= reader.max_message_size ==> forall|i: int|
            0 <= i < frames.len() ==> !reader.spec_refuses(
                reader.spec_accept_all(None, #[trigger] frames.take(i)),
                frames[i].0,
                frames[i].1,
            ),
        reader.data_payloads(frames).len() > reader.max_message_size ==> exists|i: int|
            0 <= i < frames.len() && reader.spec_refuses(
                reader.spec_accept_all(None, #[trigger] frames.take(i)),
                frames[i].0,
                frames[i].1,
            ),
    decreases frames.len(),
{
    if reader.data_payloads(frames).len() <= reader.max_message_size {
        assert forall|i: int| 0 <= i < frames.len() implies !reader.spec_refuses(
            reader.spec_accept_all(None, #[trigger] frames.take(i)),
            frames[i].0,
            frames[i].1,
        ) by {
            lemma_state_len(reader, frames.take(i));
            lemma_data_payloads_step(reader, frames, i);
            lemma_data_payloads_prefix_len(reader, frames, i + 1);
        }
    }
    if reader.data_payloads(frames).len() > reader.max_message_size {
        let rest = frames.drop_last();
        let last = frames.len() - 1;
        if reader.data_payloads(rest).len() > reader.max_message_size {
            lemma_message_size_limit(reader, rest);
            let i = choose|i: int|
                0 <= i < rest.len() && reader.spec_refuses(
                    reader.spec_accept_all(None, #[trigger] rest.take(i)),
                    rest[i].0,
                    rest[i].1,
                );
            assert(rest.take(i) =~= frames.take(i));
            assert(reader.spec_refuses(
                reader.spec_accept_all(None, frames.take(i)),
                frames[i].0,
                frames[i].1,
            ));
        } else {
            assert(frames.take(last) =~= rest);
            lemma_state_len(reader, rest);
            let (h, p) = frames.last();
            lemma_keyed_len(p, h.mask);
            assert(reader.spec_refuses(
                reader.spec_accept_all(None, frames.take(last)),
                frames[last].0,
                frames[last].1,
            ));
        }
    }
}

/// Law (a read gives back what was written): the bytes that a write half
/// sends for a frame, followed by anything, are decoded by a read half into
/// the header the frame went out with, and the payload the read half hands
/// on is the frame's original payload. This holds when the reader unmasks
/// exactly when the writer masks (the two ends of one connection), the
/// frame carries no key of its own, and the reader accepts its header.
pub proof fn lemma_frame_delivered(
    writer: WriteHalf,
    reader: ReadHalf,
    frame: FrameView,
    fresh_key: Seq<u8>,
    rest: Seq<u8>,
)
    requires
        writer.masks_outgoing() == reader.unmasks_incoming(),
        frame.mask is None,
        fresh_key.len() == 4,
        frame.payload.len() <= usize::MAX,
        header_acceptable(frame_header_view(frame), reader.max_message_size),
    ensures
        ({
            let f = writer.outgoing_frame(frame, fresh_key);
            let h = frame_header_view(f);
            let n = spec_encode_header(h).len();
            let wire = spec_frame_bytes(f) + rest;
            &&& spec_parse_header(wire, reader.max_message_size) == Ok::<
                (nat, HeaderView),
                WebSocketError,
            >((n, h))
            &&& reader.received_payload(h, wire.subrange(n as int, (n + frame.payload.len()) as int))
                == frame.payload
        }),
{
    let f = writer.outgoing_frame(frame, fresh_key);
    let h = frame_header_view(f);
    let e = spec_encode_header(h);
    let n = e.len();
    let wire = spec_frame_bytes(f) + rest;
    assert(wire =~= e + (f.payload + rest));
    lemma_encode_then_parse(h, f.payload + rest, reader.max_message_size);
    assert(wire.subrange(n as int, (n + frame.payload.len()) as int) =~= f.payload);
    if writer.masks_outgoing() {
        lemma_mask_involution(frame.payload, fresh_key);
    }
}

/// The bytes a write half sends for a message that is not refused: the
/// header of one final frame, then the payload, masked when the half masks.
pub open spec fn message_wire(writer: WriteHalf, message: MessageOut, fresh_key: Seq<u8>) -> Seq<u8> {
    let key = writer.message_key(fresh_key);
    spec_encode_header(
        HeaderView {
            fin: true,
            opcode: message.frame_opcode(),
            mask: key,
            payload_len: message.payload_view().len(),
        },
    ) + keyed(message.payload_view(), key)
}

/// `m` holds the same text or bytes as the message that was sent.
pub open spec fn same_message(m: Message, sent: MessageOut) -> bool {
    match sent {
        MessageOut::Text(t) => m matches Message::Text(s) && s@ == t@,
        MessageOut::Binary(p) => m matches Message::Binary(b) && bytes_contents(b) == p@,
        MessageOut::FragmentedBinary(fs) => m matches Message::Binary(b) && bytes_contents(b)
            == fragments_content(fs@),
        _ => false,
    }
}

/// Law (a message read back is the message written): the bytes that a
/// write half sends for a Text or Binary message (fragmented or not),
/// followed by anything, decode into one final frame of the message's
/// opcode; taken in by a read half of the other end it starts and completes
/// a message, and forming the message from that buffer succeeds with the
/// same text or bytes as the message sent. This holds when the reader unmasks exactly
/// when the writer masks and the message is within the reader's maximum size.
pub proof fn lemma_message_delivered(
    writer: WriteHalf,
    reader: ReadHalf,
    message: MessageOut,
    fresh_key: Seq<u8>,
    rest: Seq<u8>,
)
    requires
        writer.masks_outgoing() == reader.unmasks_incoming(),
        message is Text || message is Binary || message is FragmentedBinary,
        fresh_key.len() == 4,
        message.payload_view().len() <= reader.max_message_size,
    ensures
        ({
            let key = writer.message_key(fresh_key);
            let h = HeaderView {
                fin: true,
                opcode: message.frame_opcode(),
                mask: key,
                payload_len: message.payload_view().len(),
            };
            let n = spec_encode_header(h).len();
            let wire = message_wire(writer, message, fresh_key) + rest;
            let payload = wire.subrange(n as int, (n + message.payload_view().len()) as int);
            &&& spec_parse_header(wire, reader.max_message_size) == Ok::<
                (nat, HeaderView),
                WebSocketError,
            >((n, h))
            &&& !reader.spec_refuses(None, h, payload)
            &&& reader.spec_accept(None, h, payload) == Some(
                (message is Text, message.payload_view()),
            )
            &&& forall|r: Result<Message, WebSocketError>|
                #[trigger] message_of(r, message is Text, message.payload_view()) ==> (r matches Ok(m)
                    && same_message(m, message))
        }),
{
    let frame = FrameView {
        fin: true,
        opcode: message.frame_opcode(),
        mask: None,
        payload: message.payload_view(),
    };
    let f = writer.outgoing_frame(frame, fresh_key);
    assert(spec_frame_bytes(f) == message_wire(writer, message, fresh_key));
    lemma_frame_delivered(writer, reader, frame, fresh_key, rest);
    if let MessageOut::Text(t) = message {
        vstd::utf8::encode_utf8_valid_utf8(t@);
        vstd::utf8::encode_utf8_decode_utf8(t@);
    }
}

/// Law (a half that masks masks every frame): when the write half masks,
/// every frame it sends, whatever its opcode (control frames included),
/// keeps its fin bit and opcode, carries a key (its own, or else the fresh
/// one), has each payload byte XORed with the key byte of its position
/// modulo four, and has the mask bit of its second wire byte set. A half
/// that does not mask sends the frame as it is.
pub proof fn lemma_outgoing_frame_masking(writer: WriteHalf, frame: FrameView, fresh_key: Seq<u8>)
    requires
        fresh_key.len() == 4,
        frame.mask matches Some(k) ==> k.len() == 4,
    ensures
        ({
            let f = writer.outgoing_frame(frame, fresh_key);
            let key = match frame.mask {
                Some(k) => k,
                None => fresh_key,
            };
            &&& f.fin == frame.fin
            &&& f.opcode == frame.opcode
            &&& f.payload.len() == frame.payload.len()
            &&& writer.masks_outgoing() ==> {
                &&& f.mask == Some(key)
                &&& forall|i: int|
                    0 <= i < frame.payload.len() ==> #[trigger] f.payload[i] == frame.payload[i]
                        ^ key[i % 4]
                &&& spec_frame_bytes(f)[1] & 0x80u8 == 0x80u8
            }
            &&& !writer.masks_outgoing() ==> f == frame
        }),
{
    let f = writer.outgoing_frame(frame, fresh_key);
    if writer.masks_outgoing() {
        let key = match frame.mask {
            Some(k) => k,
            None => fresh_key,
        };
        lemma_mask_key_stream(frame.payload, key);
        let h = frame_header_view(f);
        let lb = spec_length_bytes(h.payload_len, true);
        assert(spec_frame_bytes(f)[1] == lb[0]);
        let c: u8 = if h.payload_len < 126 {
            h.payload_len as u8
        } else if h.payload_len < 65536 {
            126u8
        } else {
            127u8
        };
        assert(lb[0] == c | 0x80u8);
        assert((c | 0x80u8) & 0x80u8 == 0x80u8) by (bit_vector);
    }
}

/// Law (each kind of message goes out under its own opcode): the first byte
/// that a write half sends for a message is that of a final frame of the
/// message's kind: 0x89 for a Ping, 0x8A for a Pong, 0x88 for a Close, 0x81
/// for a Text and 0x82 for a Binary message, fragmented or not.
pub proof fn lemma_message_first_byte(writer: WriteHalf, message: MessageOut, fresh_key: Seq<u8>)
    ensures
        message_wire(writer, message, fresh_key)[0] == (match message {
            MessageOut::Ping(_) => 0x89u8,
            MessageOut::Pong(_) => 0x8Au8,
            MessageOut::Close(_) => 0x88u8,
            MessageOut::Text(_) => 0x81u8,
            MessageOut::Binary(_) => 0x82u8,
            MessageOut::FragmentedBinary(_) => 0x82u8,
        }),
{
    assert(0x80u8 | 0x9u8 == 0x89u8 && 0x80u8 | 0xAu8 == 0x8Au8 && 0x80u8 | 0x8u8 == 0x88u8
        && 0x80u8 | 0x1u8 == 0x81u8 && 0x80u8 | 0x2u8 == 0x82u8) by (bit_vector);
}

/// Law (every message arrives as sent, control messages included): the
/// bytes that a write half sends for any message, followed by anything,
/// decode into one final frame whose opcode is that of the message's kind
/// (Ping, Pong, Close, Text; Binary for a Binary message, fragmented or
/// not), whose length is that of the bytes the message holds (the bytes
/// given, the UTF-8 encoding of a text, the pieces one after the other),
/// and whose key is the fresh key exactly when the half masks; the payload
/// that the read half of the other end hands on is exactly the bytes the
/// message holds. This holds when the reader unmasks exactly when the
/// writer masks and the reader accepts the header: within its maximum
/// size, and at most 125 bytes for a control message.
pub proof fn lemma_every_message_delivered(
    writer: WriteHalf,
    reader: ReadHalf,
    message: MessageOut,
    fresh_key: Seq<u8>,
    rest: Seq<u8>,
)
    requires
        writer.masks_outgoing() == reader.unmasks_incoming(),
        fresh_key.len() == 4,
        (match message {
            MessageOut::Ping(p) => p@.len() <= 125,
            MessageOut::Pong(p) => p@.len() <= 125,
            MessageOut::Close(p) => p@.len() <= 125,
            _ => true,
        }),
        (match message {
            MessageOut::Ping(p) => p@,
            MessageOut::Pong(p) => p@,
            MessageOut::Close(p) => p@,
            MessageOut::Text(s) => encode_utf8(s@),
            MessageOut::Binary(p) => p@,
            MessageOut::FragmentedBinary(fs) => fragments_content(fs@),
        }).len() <= reader.max_message_size,
    ensures
        ({
            let held: Seq<u8> = match message {
                MessageOut::Ping(p) => p@,
                MessageOut::Pong(p) => p@,
                MessageOut::Close(p) => p@,
                MessageOut::Text(s) => encode_utf8(s@),
                MessageOut::Binary(p) => p@,
                MessageOut::FragmentedBinary(fs) => fragments_content(fs@),
            };
            let kind = match message {
                MessageOut::Ping(_) => OpCode::Ping,
                MessageOut::Pong(_) => OpCode::Pong,
                MessageOut::Close(_) => OpCode::Close,
                MessageOut::Text(_) => OpCode::Text,
                MessageOut::Binary(_) => OpCode::Binary,
                MessageOut::FragmentedBinary(_) => OpCode::Binary,
            };
            let wire = message_wire(writer, message, fresh_key) + rest;
            spec_parse_header(wire, reader.max_message_size) matches Ok((n, h)) && {
                &&& h.fin
                &&& h.opcode == kind
                &&& h.payload_len == held.len()
                &&& writer.masks_outgoing() ==> h.mask == Some(fresh_key)
                &&& !writer.masks_outgoing() ==> h.mask is None
                &&& n + held.len() <= wire.len()
                &&& reader.received_payload(h, wire.subrange(n as int, (n + held.len()) as int))
                    == held
            }
        }),
{
    let frame = FrameView {
        fin: true,
        opcode: message.frame_opcode(),
        mask: None,
        payload: message.payload_view(),
    };
    let f = writer.outgoing_frame(frame, fresh_key);
    assert(spec_frame_bytes(f) == message_wire(writer, message, fresh_key));
    lemma_frame_delivered(writer, reader, frame, fresh_key, rest);
    let h = frame_header_view(f);
    let n = spec_encode_header(h).len();
    assert(spec_frame_bytes(f).len() == n + f.payload.len());
}

} // verus!
