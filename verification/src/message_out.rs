use vstd::prelude::*;
use vstd::utf8::encode_utf8;

use bytes::Bytes;

use crate::external::{bytes_as_slice, bytes_contents, bytes_from_owner, string_into_bytes};
use crate::frame::{Frame, FrameView, OpCode, Payload};
use crate::header::{encode_frame_header, key_view, spec_encode_header, HeaderView};
use crate::mask::{apply_mask, lemma_mask_involution, unmask};

verus! {

/// A message to send.
#[derive(Debug)]
pub enum MessageOut {
    Ping(Vec<u8>),
    Pong(Vec<u8>),
    Close(Vec<u8>),
    Text(String),
    Binary(Vec<u8>),
    /// A Binary message given in pieces, sent as a single frame whose
    /// payload is the pieces one after the other.
    FragmentedBinary(Vec<Bytes>),
}

/// The bytes of the pieces, one after the other.
pub open spec fn fragments_content(fs: Seq<Bytes>) -> Seq<u8>
    decreases fs.len(),
{
    if fs.len() == 0 {
        Seq::empty()
    } else {
        fragments_content(fs.drop_last()) + bytes_contents(fs.last())
    }
}

pub(crate) proof fn lemma_fragments_content_step(fs: Seq<Bytes>, i: int)
    requires
        0 <= i < fs.len(),
    ensures
        fragments_content(fs.take(i + 1)) == fragments_content(fs.take(i)) + bytes_contents(fs[i]),
{
    assert(fs.take(i + 1).drop_last() =~= fs.take(i));
}

pub(crate) proof fn lemma_fragments_content_prefix_len(fs: Seq<Bytes>, i: int)
    requires
        0 <= i <= fs.len(),
    ensures
        fragments_content(fs.take(i)).len() <= fragments_content(fs).len(),
    decreases fs.len() - i,
{
    if i < fs.len() {
        lemma_fragments_content_step(fs, i);
        lemma_fragments_content_prefix_len(fs, i + 1);
    } else {
        assert(fs.take(i) =~= fs);
    }
}

/// Total number of bytes in the pieces.
fn fragments_len(fragments: &Vec<Bytes>) -> (r: usize)
    requires
        fragments_content(fragments@).len() <= usize::MAX,
    ensures
        r == fragments_content(fragments@).len(),
{
    let mut total: usize = 0;
    let mut i: usize = 0;
    assert(fragments@.take(0) =~= Seq::<Bytes>::empty());
    while i < fragments.len()
        invariant
            0 <= i <= fragments@.len(),
            total == fragments_content(fragments@.take(i as int)).len(),
            fragments_content(fragments@).len() <= usize::MAX,
        decreases fragments@.len() - i,
    {
        proof {
            lemma_fragments_content_step(fragments@, i as int);
            lemma_fragments_content_prefix_len(fragments@, i + 1);
        }
        let n = bytes_as_slice(&fragments[i]).len();
        total = total + n;
        i = i + 1;
    }
    assert(fragments@.take(i as int) =~= fragments@);
    total
}

impl MessageOut {
    pub fn is_close(&self) -> (r: bool)
        ensures
            r == (self is Close),
    {
        match self {
            MessageOut::Close(_) => true,
            _ => false,
        }
    }

    pub fn is_fragmented(&self) -> (r: bool)
        ensures
            r == (self is FragmentedBinary),
    {
        match self {
            MessageOut::FragmentedBinary(_) => true,
            _ => false,
        }
    }

    /// The opcode of the single frame that carries this message.
    pub open spec fn frame_opcode(self) -> OpCode {
        match self {
            MessageOut::Ping(_) => OpCode::Ping,
            MessageOut::Pong(_) => OpCode::Pong,
            MessageOut::Close(_) => OpCode::Close,
            MessageOut::Text(_) => OpCode::Text,
            MessageOut::Binary(_) => OpCode::Binary,
            MessageOut::FragmentedBinary(_) => OpCode::Binary,
        }
    }

    /// The payload of the frame that carries this message: the UTF-8
    /// encoding of a text, the pieces of a fragmented message joined.
    pub open spec fn payload_view(self) -> Seq<u8> {
        match self {
            MessageOut::Ping(p) => p@,
            MessageOut::Pong(p) => p@,
            MessageOut::Close(p) => p@,
            MessageOut::Text(s) => encode_utf8(s@),
            MessageOut::Binary(p) => p@,
            MessageOut::FragmentedBinary(fs) => fragments_content(fs@),
        }
    }

    /// The pieces of a fragmented message (none for any other message).
    pub open spec fn pieces(self) -> Seq<Bytes> {
        match self {
            MessageOut::FragmentedBinary(fs) => fs@,
            _ => Seq::empty(),
        }
    }

    /// The number of payload bytes the message is sent with, or `None` when
    /// the pieces of a fragmented message together exceed `usize`.
    pub fn payload_len(&self) -> (r: Option<usize>)
        ensures
            r == (if self.payload_view().len() <= usize::MAX {
                Some(self.payload_view().len() as usize)
            } else {
                None::<usize>
            }),
    {
        match self {
            MessageOut::Ping(p) => Some(p.len()),
            MessageOut::Pong(p) => Some(p.len()),
            MessageOut::Close(p) => Some(p.len()),
            MessageOut::Text(t) => Some(t.as_str().as_bytes().len()),
            MessageOut::Binary(p) => Some(p.len()),
            MessageOut::FragmentedBinary(fragments) => {
                let mut total: usize = 0;
                let mut i: usize = 0;
                assert(fragments@.take(0) =~= Seq::<Bytes>::empty());
                let ghost whole = self.payload_view();
                assert(whole == fragments_content(fragments@));
                while i < fragments.len()
                    invariant
                        0 <= i <= fragments@.len(),
                        whole == fragments_content(fragments@),
                        whole == self.payload_view(),
                        total == fragments_content(fragments@.take(i as int)).len(),
                    decreases fragments@.len() - i,
                {
                    proof {
                        lemma_fragments_content_step(fragments@, i as int);
                    }
                    let n = bytes_as_slice(&fragments[i]).len();
                    match total.checked_add(n) {
                        Some(t) => total = t,
                        None => {
                            proof {
                                lemma_fragments_content_prefix_len(fragments@, i + 1);
                                assert(fragments_content(fragments@.take(i + 1)).len() > usize::MAX);
                            }
                            return None;
                        },
                    }
                    i = i + 1;
                }
                assert(fragments@.take(i as int) =~= fragments@);
                Some(total)
            },
        }
    }

    /// The single, final frame that carries a message that is not
    /// fragmented, with the given key recorded (the payload is not masked
    /// here).
    pub fn to_single_frame(self, mask: Option<[u8; 4]>) -> (r: Frame)
        requires
            !(self is FragmentedBinary),
        ensures
            r@ == (FrameView {
                fin: true,
                opcode: self.frame_opcode(),
                mask: key_view(mask),
                payload: self.payload_view(),
            }),
    {
        match self {
            MessageOut::Ping(payload) => Frame::new(true, OpCode::Ping, mask, Payload::Owned(payload)),
            MessageOut::Pong(payload) => Frame::new(true, OpCode::Pong, mask, Payload::Owned(payload)),
            MessageOut::Close(payload) => Frame::new(
                true,
                OpCode::Close,
                mask,
                Payload::Owned(payload),
            ),
            MessageOut::Text(text) => Frame::new(
                true,
                OpCode::Text,
                mask,
                Payload::Owned(string_into_bytes(text)),
            ),
            MessageOut::Binary(data) => Frame::new(true, OpCode::Binary, mask, Payload::Owned(data)),
            MessageOut::FragmentedBinary(_) => Frame::new(
                true,
                OpCode::Binary,
                mask,
                Payload::Owned(Vec::new()),
            ),
        }
    }

    /// The header of the single final Binary frame that carries a fragmented
    /// message, announcing the total length of the pieces and the key.
    pub fn build_header_for_fragmented_message(&self, mask: &Option<[u8; 4]>) -> (r: Vec<u8>)
        requires
            self is FragmentedBinary,
            self.payload_view().len() <= usize::MAX,
        ensures
            r@ == spec_encode_header(
                HeaderView {
                    fin: true,
                    opcode: OpCode::Binary,
                    mask: key_view(*mask),
                    payload_len: self.payload_view().len(),
                },
            ),
    {
        match self {
            MessageOut::FragmentedBinary(fragments) => {
                let total_length = fragments_len(fragments);
                encode_frame_header(true, OpCode::Binary, *mask, total_length)
            },
            _ => Vec::new(),
        }
    }

    /// Masks a fragmented message: with a key, the pieces are joined into
    /// one and masked; without one, the message is left as it is.
    pub fn apply_mask(self, mask: Option<[u8; 4]>) -> (r: MessageOut)
        requires
            self is FragmentedBinary,
            self.payload_view().len() <= usize::MAX,
        ensures
            r is FragmentedBinary,
            mask is Some ==> r.pieces().len() == 1,
            r.payload_view() == (match mask {
                Some(k) => apply_mask(self.payload_view(), k@),
                None => self.payload_view(),
            }),
            mask is None ==> r == self,
    {
        match self {
            MessageOut::FragmentedBinary(raw_fragments) => {
                match mask {
                    Some(key) => {
                        let total = fragments_len(&raw_fragments);
                        let mut collected: Vec<u8> = Vec::with_capacity(total);
                        let mut i: usize = 0;
                        assert(raw_fragments@.take(0) =~= Seq::<Bytes>::empty());
                        while i < raw_fragments.len()
                            invariant
                                0 <= i <= raw_fragments@.len(),
                                collected@ == fragments_content(raw_fragments@.take(i as int)),
                            decreases raw_fragments@.len() - i,
                        {
                            proof {
                                lemma_fragments_content_step(raw_fragments@, i as int);
                            }
                            let piece = bytes_as_slice(&raw_fragments[i]);
                            let ghost before = collected@;
                            collected.extend_from_slice(piece);
                            assert(collected@ =~= before + piece@);
                            i = i + 1;
                        }
                        assert(raw_fragments@.take(i as int) =~= raw_fragments@);
                        unmask(collected.as_mut_slice(), key);
                        let mut joined: Vec<Bytes> = Vec::new();
                        joined.push(bytes_from_owner(collected));
                        proof {
                            assert(joined@.drop_last() =~= Seq::<Bytes>::empty());
                            assert(fragments_content(joined@.drop_last()) =~= Seq::<u8>::empty());
                            assert(fragments_content(joined@) =~= bytes_contents(joined@.last()));
                        }
                        MessageOut::FragmentedBinary(joined)
                    },
                    None => MessageOut::FragmentedBinary(raw_fragments),
                }
            },
            other => other,
        }
    }
}

/// Law (masking a fragmented message twice): masking the joined pieces of
/// a fragmented message with a key keeps their length, so the result can be
/// masked again, and masking it again with the same key gives back the
/// original bytes.
pub proof fn lemma_fragmented_mask_twice(
    pieces: Seq<Bytes>,
    once: Seq<Bytes>,
    twice: Seq<Bytes>,
    key: Seq<u8>,
)
    requires
        key.len() == 4,
        fragments_content(once) == apply_mask(fragments_content(pieces), key),
        fragments_content(twice) == apply_mask(fragments_content(once), key),
    ensures
        fragments_content(once).len() == fragments_content(pieces).len(),
        fragments_content(twice) == fragments_content(pieces),
{
    lemma_mask_involution(fragments_content(pieces), key);
}

} // verus!
