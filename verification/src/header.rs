use vstd::prelude::*;

use crate::error::WebSocketError;
use crate::frame::{is_control, opcode_of_value, opcode_value, spec_is_control, OpCode};

verus! {

/// What a frame header says, as a mathematical value: the FIN bit, the
/// opcode, the masking key if there is one, and the payload length.
pub struct HeaderView {
    pub fin: bool,
    pub opcode: OpCode,
    pub mask: Option<Seq<u8>>,
    pub payload_len: nat,
}

/// A decoded frame header.
#[derive(Clone, Copy, Debug, PartialEq, Eq)]
pub struct FrameHeader {
    pub fin: bool,
    pub opcode: OpCode,
    pub mask: Option<[u8; 4]>,
    pub payload_len: usize,
}

/// A masking key as a sequence of four bytes.
pub open spec fn key_view(mask: Option<[u8; 4]>) -> Option<Seq<u8>> {
    match mask {
        Some(k) => Some(k@),
        None => None,
    }
}

impl View for FrameHeader {
    type V = HeaderView;

    open spec fn view(&self) -> HeaderView {
        HeaderView {
            fin: self.fin,
            opcode: self.opcode,
            mask: key_view(self.mask),
            payload_len: self.payload_len as nat,
        }
    }
}

/// What the first two bytes of a header say.
#[derive(Clone, Copy, Debug, PartialEq, Eq)]
pub struct HeadStart {
    pub fin: bool,
    pub opcode: OpCode,
    pub masked: bool,
    /// The seven-bit length field: a length below 126, or 126 / 127 for a
    /// 16-bit / 64-bit extended length.
    pub length_code: u8,
}

/* ---- bit fields of the first two header bytes ---- */

pub open spec fn fin_bit(b0: u8) -> bool {
    b0 & 0x80 != 0
}

pub open spec fn rsv_bits_set(b0: u8) -> bool {
    b0 & 0x70 != 0
}

pub open spec fn opcode_bits(b0: u8) -> u8 {
    b0 & 0x0F
}

pub open spec fn mask_bit(b1: u8) -> bool {
    b1 & 0x80 != 0
}

pub open spec fn length_bits(b1: u8) -> u8 {
    b1 & 0x7F
}

/// Number of extended-length bytes that follow the first two bytes.
pub open spec fn extended_len_size(length_code: u8) -> nat {
    if length_code == 126 {
        2
    } else if length_code == 127 {
        8
    } else {
        0
    }
}

/// Big-endian value of two bytes.
pub open spec fn be_u16(b0: u8, b1: u8) -> u16 {
    ((b0 as u16) << 8u16) | (b1 as u16)
}

/// Big-endian value of eight bytes.
pub open spec fn be_u64(b0: u8, b1: u8, b2: u8, b3: u8, b4: u8, b5: u8, b6: u8, b7: u8) -> u64 {
    ((b0 as u64) << 56u64) | ((b1 as u64) << 48u64) | ((b2 as u64) << 40u64) | ((b3 as u64)
        << 32u64) | ((b4 as u64) << 24u64) | ((b5 as u64) << 16u64) | ((b6 as u64) << 8u64) | (
    b7 as u64)
}

/// The big-endian bytes of a 16-bit value.
pub open spec fn u16_be_bytes(v: u16) -> Seq<u8> {
    seq![(v >> 8u16) as u8, v as u8]
}

/// The big-endian bytes of a 64-bit value.
pub open spec fn u64_be_bytes(v: u64) -> Seq<u8> {
    seq![
        (v >> 56u64) as u8,
        (v >> 48u64) as u8,
        (v >> 40u64) as u8,
        (v >> 32u64) as u8,
        (v >> 24u64) as u8,
        (v >> 16u64) as u8,
        (v >> 8u64) as u8,
        v as u8,
    ]
}

/* ---- decoding, stage by stage ---- */

/// First stage: the first two bytes.
pub open spec fn spec_head_start(b0: u8, b1: u8) -> Result<HeadStart, WebSocketError> {
    if rsv_bits_set(b0) {
        Err(WebSocketError::ReservedBitsNotZero)
    } else {
        match opcode_of_value(opcode_bits(b0)) {
            None => Err(WebSocketError::InvalidValue),
            Some(op) => Ok(
                HeadStart {
                    fin: fin_bit(b0),
                    opcode: op,
                    masked: mask_bit(b1),
                    length_code: length_bits(b1),
                },
            ),
        }
    }
}

/// The length announced by a length code and its extended-length bytes.
pub open spec fn announced_len(length_code: u8, ext: Seq<u8>) -> nat {
    if length_code == 126 {
        be_u16(ext[0], ext[1]) as nat
    } else if length_code == 127 {
        be_u64(ext[0], ext[1], ext[2], ext[3], ext[4], ext[5], ext[6], ext[7]) as nat
    } else {
        length_code as nat
    }
}

/// Second stage: the extended-length bytes give the payload length, which
/// must fit the machine's `usize`.
pub open spec fn spec_payload_len(start: HeadStart, ext: Seq<u8>) -> Result<nat, WebSocketError> {
    let len = announced_len(start.length_code, ext);
    if len > usize::MAX {
        Err(WebSocketError::FrameTooLarge)
    } else {
        Ok(len)
    }
}

/// Last stage: with the masking key read, the rules on control frames and
/// on the maximum message size.
pub open spec fn spec_finish_header(
    start: HeadStart,
    payload_len: nat,
    mask: Option<Seq<u8>>,
    max_message_size: usize,
) -> Result<HeaderView, WebSocketError> {
    if spec_is_control(start.opcode) && !start.fin {
        Err(WebSocketError::ControlFrameFragmented)
    } else if spec_is_control(start.opcode) && payload_len > 125 {
        Err(WebSocketError::ControlFrameTooLarge)
    } else if payload_len > max_message_size {
        Err(WebSocketError::FrameTooLarge)
    } else {
        Ok(HeaderView { fin: start.fin, opcode: start.opcode, mask, payload_len })
    }
}

/// Decoding a header from a stream whose remaining bytes are `s`: the
/// header's length and value, or the error that reading it stage by stage
/// meets first.
pub open spec fn spec_parse_header(s: Seq<u8>, max_message_size: usize) -> Result<
    (nat, HeaderView),
    WebSocketError,
> {
    if s.len() < 2 {
        Err(WebSocketError::UnexpectedEOF)
    } else {
        match spec_head_start(s[0], s[1]) {
            Err(e) => Err(e),
            Ok(start) => {
                let ext_end = 2 + extended_len_size(start.length_code);
                if s.len() < ext_end {
                    Err(WebSocketError::UnexpectedEOF)
                } else {
                    match spec_payload_len(start, s.subrange(2, ext_end as int)) {
                        Err(e) => Err(e),
                        Ok(len) => {
                            let end: nat = if start.masked {
                                ext_end + 4
                            } else {
                                ext_end
                            };
                            if s.len() < end {
                                Err(WebSocketError::UnexpectedEOF)
                            } else {
                                let mask = if start.masked {
                                    Some(s.subrange(ext_end as int, end as int))
                                } else {
                                    None
                                };
                                match spec_finish_header(start, len, mask, max_message_size) {
                                    Err(e) => Err(e),
                                    Ok(h) => Ok((end, h)),
                                }
                            }
                        },
                    }
                }
            },
        }
    }
}

/* ---- encoding ---- */

/// The length field and extended length of a header, mask bit included.
pub open spec fn spec_length_bytes(len: nat, masked: bool) -> Seq<u8> {
    let m: u8 = if masked {
        0x80
    } else {
        0
    };
    if len < 126 {
        seq![(len as u8) | m]
    } else if len < 65536 {
        seq![126u8 | m] + u16_be_bytes(len as u16)
    } else {
        seq![127u8 | m] + u64_be_bytes(len as u64)
    }
}

/// The first header byte: FIN bit, zero RSV bits, opcode.
pub open spec fn spec_first_byte(fin: bool, opcode: OpCode) -> u8 {
    (if fin {
        0x80u8
    } else {
        0u8
    }) | opcode_value(opcode)
}

/// The wire form of a header (RFC 6455, section 5.2): the shortest length
/// encoding, then the masking key if there is one.
pub open spec fn spec_encode_header(h: HeaderView) -> Seq<u8> {
    seq![spec_first_byte(h.fin, h.opcode)] + spec_length_bytes(h.payload_len, h.mask is Some)
        + match h.mask {
        Some(k) => k,
        None => Seq::empty(),
    }
}

/// A header value that has a wire form: a four-byte key, a length that
/// fits `usize`.
pub open spec fn header_encodable(h: HeaderView) -> bool {
    &&& h.payload_len <= usize::MAX
    &&& (h.mask matches Some(k) ==> k.len() == 4)
}

/// The header would be accepted by a reader with this maximum size.
pub open spec fn header_acceptable(h: HeaderView, max_message_size: usize) -> bool {
    &&& spec_is_control(h.opcode) ==> h.fin
    &&& spec_is_control(h.opcode) ==> h.payload_len <= 125
    &&& h.payload_len <= max_message_size
}


/* ---- executable decoding ---- */

impl HeadStart {
    /// Number of extended-length bytes this header carries.
    pub fn extended_len(&self) -> (r: usize)
        ensures
            r as nat == extended_len_size(self.length_code),
    {
        if self.length_code == 126 {
            2
        } else if self.length_code == 127 {
            8
        } else {
            0
        }
    }
}

/// Decodes the first two bytes of a frame header.
pub fn decode_head_start(b0: u8, b1: u8) -> (r: Result<HeadStart, WebSocketError>)
    ensures
        r == spec_head_start(b0, b1),
{
    let fin = b0 & 0x80 != 0;
    let rsv = b0 & 0x70 != 0;
    if rsv {
        return Err(WebSocketError::ReservedBitsNotZero);
    }
    let opcode = match OpCode::try_from_u8(b0 & 0x0F) {
        Ok(op) => op,
        Err(e) => return Err(e),
    };
    let masked = b1 & 0x80 != 0;
    let length_code = b1 & 0x7F;
    Ok(HeadStart { fin, opcode, masked, length_code })
}

/// Decodes the payload length from the extended-length bytes (none, two or
/// eight, as the length code says).
pub fn decode_payload_len(start: &HeadStart, ext: &[u8]) -> (r: Result<usize, WebSocketError>)
    requires
        ext@.len() == extended_len_size(start.length_code),
    ensures
        match r {
            Ok(n) => spec_payload_len(*start, ext@) == Ok::<nat, WebSocketError>(n as nat),
            Err(e) => spec_payload_len(*start, ext@) == Err::<nat, WebSocketError>(e),
        },
{
    if start.length_code == 126 {
        let v: u16 = ((ext[0] as u16) << 8u16) | (ext[1] as u16);
        Ok(v as usize)
    } else if start.length_code == 127 {
        let v: u64 = ((ext[0] as u64) << 56u64) | ((ext[1] as u64) << 48u64) | ((ext[2] as u64)
            << 40u64) | ((ext[3] as u64) << 32u64) | ((ext[4] as u64) << 24u64) | ((ext[5] as u64)
            << 16u64) | ((ext[6] as u64) << 8u64) | (ext[7] as u64);
        if v > usize::MAX as u64 {
            Err(WebSocketError::FrameTooLarge)
        } else {
            Ok(v as usize)
        }
    } else {
        Ok(start.length_code as usize)
    }
}

/// Applies the rules on control frames and on the maximum message size to a
/// header whose length and masking key have been read.
pub fn finish_header(
    start: &HeadStart,
    payload_len: usize,
    mask: Option<[u8; 4]>,
    max_message_size: usize,
) -> (r: Result<FrameHeader, WebSocketError>)
    ensures
        match r {
            Ok(h) => spec_finish_header(*start, payload_len as nat, key_view(mask), max_message_size)
                == Ok::<HeaderView, WebSocketError>(h@),
            Err(e) => spec_finish_header(*start, payload_len as nat, key_view(mask), max_message_size)
                == Err::<HeaderView, WebSocketError>(e),
        },
{
    if is_control(start.opcode) {
        if !start.fin {
            return Err(WebSocketError::ControlFrameFragmented);
        }
        if payload_len > 125 {
            return Err(WebSocketError::ControlFrameTooLarge);
        }
    }
    if payload_len > max_message_size {
        return Err(WebSocketError::FrameTooLarge);
    }
    Ok(FrameHeader { fin: start.fin, opcode: start.opcode, mask, payload_len })
}

/// Decodes a whole frame header from the front of `buf`, returning its
/// length in bytes and its value.
pub fn decode_frame_header(buf: &[u8], max_message_size: usize) -> (r: Result<
    (usize, FrameHeader),
    WebSocketError,
>)
    ensures
        match r {
            Ok((n, h)) => spec_parse_header(buf@, max_message_size) == Ok::<
                (nat, HeaderView),
                WebSocketError,
            >((n as nat, h@)),
            Err(e) => spec_parse_header(buf@, max_message_size) == Err::<
                (nat, HeaderView),
                WebSocketError,
            >(e),
        },
{
    if buf.len() < 2 {
        return Err(WebSocketError::UnexpectedEOF);
    }
    let start = match decode_head_start(buf[0], buf[1]) {
        Ok(st) => st,
        Err(e) => return Err(e),
    };
    let ext_end = 2 + start.extended_len();
    if buf.len() < ext_end {
        return Err(WebSocketError::UnexpectedEOF);
    }
    let ext = &buf[2..ext_end];
    let payload_len = match decode_payload_len(&start, ext) {
        Ok(n) => n,
        Err(e) => return Err(e),
    };
    let end = if start.masked {
        ext_end + 4
    } else {
        ext_end
    };
    if buf.len() < end {
        return Err(WebSocketError::UnexpectedEOF);
    }
    let mask = if start.masked {
        let key = [buf[ext_end], buf[ext_end + 1], buf[ext_end + 2], buf[ext_end + 3]];
        assert(key@ =~= buf@.subrange(ext_end as int, end as int));
        Some(key)
    } else {
        None
    };
    match finish_header(&start, payload_len, mask, max_message_size) {
        Ok(h) => Ok((end, h)),
        Err(e) => Err(e),
    }
}

/* ---- executable encoding ---- */

/// Writes the header of a frame (RFC 6455, section 5.2): FIN bit and
/// opcode, mask bit and the shortest length encoding, then the masking key.
pub fn encode_frame_header(fin: bool, opcode: OpCode, mask: Option<[u8; 4]>, payload_len: usize) -> (r:
    Vec<u8>)
    ensures
        r@ == spec_encode_header(
            HeaderView { fin, opcode, mask: key_view(mask), payload_len: payload_len as nat },
        ),
{
    let mut head: Vec<u8> = Vec::with_capacity(14);
    let first: u8 = (if fin {
        0x80u8
    } else {
        0u8
    }) | opcode.as_u8();
    head.push(first);
    let mask_flag: u8 = if mask.is_some() {
        0x80
    } else {
        0
    };
    if payload_len < 126 {
        head.push((payload_len as u8) | mask_flag);
    } else if payload_len < 65536 {
        head.push(126u8 | mask_flag);
        let v = payload_len as u16;
        head.push((v >> 8u16) as u8);
        head.push(v as u8);
    } else {
        head.push(127u8 | mask_flag);
        let v = payload_len as u64;
        head.push((v >> 56u64) as u8);
        head.push((v >> 48u64) as u8);
        head.push((v >> 40u64) as u8);
        head.push((v >> 32u64) as u8);
        head.push((v >> 24u64) as u8);
        head.push((v >> 16u64) as u8);
        head.push((v >> 8u64) as u8);
        head.push(v as u8);
    }
    match mask {
        Some(k) => {
            head.push(k[0]);
            head.push(k[1]);
            head.push(k[2]);
            head.push(k[3]);
        },
        None => {},
    }
    let ghost h = HeaderView { fin, opcode, mask: key_view(mask), payload_len: payload_len as nat };
    assert(head@ =~= spec_encode_header(h));
    head
}

/* ---- laws of the header format ---- */

proof fn lemma_first_byte(fin: bool, op: OpCode)
    ensures
        fin_bit(spec_first_byte(fin, op)) == fin,
        !rsv_bits_set(spec_first_byte(fin, op)),
        opcode_bits(spec_first_byte(fin, op)) == opcode_value(op),
{
    let v = opcode_value(op);
    assert(v < 16);
    if fin {
        assert(v < 16 ==> ((0x80u8 | v) & 0x80 != 0 && (0x80u8 | v) & 0x70 == 0 && (0x80u8 | v)
            & 0x0F == v)) by (bit_vector);
    } else {
        assert(v < 16 ==> ((0u8 | v) & 0x80 == 0 && (0u8 | v) & 0x70 == 0 && (0u8 | v) & 0x0F
            == v)) by (bit_vector);
    }
}

proof fn lemma_length_byte(c: u8, masked: bool)
    requires
        c < 128,
    ensures
        mask_bit(c | (if masked {
            0x80u8
        } else {
            0u8
        })) == masked,
        length_bits(c | (if masked {
            0x80u8
        } else {
            0u8
        })) == c,
{
    if masked {
        assert(c < 128 ==> ((c | 0x80u8) & 0x80 != 0 && (c | 0x80u8) & 0x7F == c)) by (bit_vector);
    } else {
        assert(c < 128 ==> ((c | 0u8) & 0x80 == 0 && (c | 0u8) & 0x7F == c)) by (bit_vector);
    }
}

proof fn lemma_be_u16_of_bytes(v: u16)
    ensures
        be_u16((v >> 8u16) as u8, v as u8) == v,
{
    assert(be_u16((v >> 8u16) as u8, v as u8) == v) by (bit_vector);
}

proof fn lemma_bytes_of_be_u16(b0: u8, b1: u8)
    ensures
        (be_u16(b0, b1) >> 8u16) as u8 == b0,
        be_u16(b0, b1) as u8 == b1,
{
    assert((be_u16(b0, b1) >> 8u16) as u8 == b0 && be_u16(b0, b1) as u8 == b1) by (bit_vector);
}

proof fn lemma_be_u64_of_bytes(v: u64)
    ensures
        be_u64(
            (v >> 56u64) as u8,
            (v >> 48u64) as u8,
            (v >> 40u64) as u8,
            (v >> 32u64) as u8,
            (v >> 24u64) as u8,
            (v >> 16u64) as u8,
            (v >> 8u64) as u8,
            v as u8,
        ) == v,
{
    assert(be_u64(
        (v >> 56u64) as u8,
        (v >> 48u64) as u8,
        (v >> 40u64) as u8,
        (v >> 32u64) as u8,
        (v >> 24u64) as u8,
        (v >> 16u64) as u8,
        (v >> 8u64) as u8,
        v as u8,
    ) == v) by (bit_vector);
}

proof fn lemma_bytes_of_be_u64(b0: u8, b1: u8, b2: u8, b3: u8, b4: u8, b5: u8, b6: u8, b7: u8)
    ensures
        u64_be_bytes(be_u64(b0, b1, b2, b3, b4, b5, b6, b7)) == seq![b0, b1, b2, b3, b4, b5, b6, b7],
{
    let v = be_u64(b0, b1, b2, b3, b4, b5, b6, b7);
    assert((v >> 56u64) as u8 == b0 && (v >> 48u64) as u8 == b1 && (v >> 40u64) as u8 == b2 && (v
        >> 32u64) as u8 == b3 && (v >> 24u64) as u8 == b4 && (v >> 16u64) as u8 == b5 && (v
        >> 8u64) as u8 == b6 && v as u8 == b7) by (bit_vector)
        requires
            v == be_u64(b0, b1, b2, b3, b4, b5, b6, b7),
    ;
    assert(u64_be_bytes(v) =~= seq![b0, b1, b2, b3, b4, b5, b6, b7]);
}

/// Law (decoding inverts encoding): a reader decodes from the wire form of
/// a header exactly that header, whatever bytes follow it, provided the
/// header is one that the reader accepts.
pub proof fn lemma_encode_then_parse(h: HeaderView, rest: Seq<u8>, max_message_size: usize)
    requires
        header_encodable(h),
        header_acceptable(h, max_message_size),
    ensures
        spec_parse_header(spec_encode_header(h) + rest, max_message_size) == Ok::<
            (nat, HeaderView),
            WebSocketError,
        >((spec_encode_header(h).len(), h)),
{
    let e = spec_encode_header(h);
    let s = e + rest;
    let masked = h.mask is Some;
    let m: u8 = if masked {
        0x80
    } else {
        0
    };
    let len = h.payload_len;
    let lb = spec_length_bytes(len, masked);
    let key: Seq<u8> = match h.mask {
        Some(k) => k,
        None => Seq::empty(),
    };
    assert(e =~= seq![spec_first_byte(h.fin, h.opcode)] + lb + key);
    lemma_first_byte(h.fin, h.opcode);
    assert(s[0] == spec_first_byte(h.fin, h.opcode));
    assert(s[1] == lb[0]);
    assert(opcode_of_value(opcode_value(h.opcode)) == Some(h.opcode));
    let start = HeadStart {
        fin: h.fin,
        opcode: h.opcode,
        masked,
        length_code: length_bits(s[1]),
    };
    if len < 126 {
        lemma_length_byte(len as u8, masked);
        assert(lb.len() == 1);
        assert(spec_head_start(s[0], s[1]) == Ok::<HeadStart, WebSocketError>(start));
        assert(start.length_code == len);
        assert(announced_len(start.length_code, s.subrange(2, 2)) == len);
        assert(s.subrange(2, e.len() as int) =~= key);
    } else if len < 65536 {
        lemma_length_byte(126u8, masked);
        let v = len as u16;
        lemma_be_u16_of_bytes(v);
        assert(lb.len() == 3);
        assert(spec_head_start(s[0], s[1]) == Ok::<HeadStart, WebSocketError>(start));
        assert(start.length_code == 126);
        assert(s[2] == (v >> 8u16) as u8);
        assert(s[3] == v as u8);
        assert(announced_len(start.length_code, s.subrange(2, 4)) == len);
        assert(s.subrange(4, e.len() as int) =~= key);
    } else {
        lemma_length_byte(127u8, masked);
        let v = len as u64;
        lemma_be_u64_of_bytes(v);
        assert(lb.len() == 9);
        assert(spec_head_start(s[0], s[1]) == Ok::<HeadStart, WebSocketError>(start));
        assert(start.length_code == 127);
        let ext = s.subrange(2, 10);
        assert(ext =~= u64_be_bytes(v));
        assert(announced_len(start.length_code, ext) == len);
        assert(s.subrange(10, e.len() as int) =~= key);
    }
}

/// The length field of a header's bytes uses the shortest form for the
/// length it announces.
pub open spec fn uses_shortest_length(s: Seq<u8>) -> bool {
    let code = length_bits(s[1]);
    &&& code == 126 ==> be_u16(s[2], s[3]) >= 126
    &&& code == 127 ==> be_u64(s[2], s[3], s[4], s[5], s[6], s[7], s[8], s[9]) >= 65536
}

/// Law (encoding inverts decoding): a header that a reader accepts, and
/// whose length field has the shortest form, is re-encoded to exactly the
/// bytes it was decoded from.
pub proof fn lemma_parse_then_encode(s: Seq<u8>, max_message_size: usize)
    requires
        spec_parse_header(s, max_message_size) is Ok,
        uses_shortest_length(s),
    ensures
        spec_parse_header(s, max_message_size) matches Ok((n, h)) ==> spec_encode_header(h)
            == s.take(n as int),
{
    let (n, h) = spec_parse_header(s, max_message_size)->Ok_0;
    let b0 = s[0];
    let b1 = s[1];
    assert(b0 & 0x70 == 0 ==> b0 == ((if b0 & 0x80 != 0 {
        0x80u8
    } else {
        0u8
    }) | (b0 & 0x0F))) by (bit_vector);
    assert(opcode_value(h.opcode) == opcode_bits(b0));
    assert(spec_first_byte(h.fin, h.opcode) == b0);
    let code = length_bits(b1);
    let masked = mask_bit(b1);
    assert(b1 == (code | (if masked {
        0x80u8
    } else {
        0u8
    }))) by (bit_vector)
        requires
            code == b1 & 0x7F,
            masked == (b1 & 0x80 != 0),
    ;
    assert(code < 128) by (bit_vector)
        requires
            code == b1 & 0x7F,
    ;
    let e = spec_encode_header(h);
    let key: Seq<u8> = match h.mask {
        Some(k) => k,
        None => Seq::empty(),
    };
    let ext_end = 2 + extended_len_size(code);
    if code < 126 {
        assert(h.payload_len == code);
        assert(e =~= seq![b0, b1] + key);
    } else if code == 126 {
        let v = be_u16(s[2], s[3]);
        lemma_bytes_of_be_u16(s[2], s[3]);
        assert(h.payload_len == v);
        assert(u16_be_bytes(v) =~= seq![s[2], s[3]]);
        assert(e =~= seq![b0, b1, s[2], s[3]] + key);
    } else {
        let v = be_u64(s[2], s[3], s[4], s[5], s[6], s[7], s[8], s[9]);
        lemma_bytes_of_be_u64(s[2], s[3], s[4], s[5], s[6], s[7], s[8], s[9]);
        assert(h.payload_len == v);
        assert(e =~= seq![b0, b1, s[2], s[3], s[4], s[5], s[6], s[7], s[8], s[9]] + key);
    }
    assert(e =~= s.take(n as int));
}

/// Law (decoding reads no further than the header): once a header can be
/// decoded from a byte sequence, bytes appended after it do not change the
/// result.
pub proof fn lemma_parse_prefix(s: Seq<u8>, t: Seq<u8>, max_message_size: usize)
    requires
        spec_parse_header(s, max_message_size) is Ok,
    ensures
        spec_parse_header(s + t, max_message_size) == spec_parse_header(s, max_message_size),
{
    let u = s + t;
    assert(u[0] == s[0] && u[1] == s[1]);
    let start = spec_head_start(s[0], s[1])->Ok_0;
    let ext_end = 2 + extended_len_size(start.length_code);
    assert(u.subrange(2, ext_end as int) =~= s.subrange(2, ext_end as int));
    if start.masked {
        assert(u.subrange(ext_end as int, ext_end + 4int) =~= s.subrange(ext_end as int, ext_end + 4int));
    }
}

} // verus!
