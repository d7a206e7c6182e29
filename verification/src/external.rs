//! Declarations of the outside types that the library holds, and the
//! trusted wrappers of the outside functions that it calls.

use vstd::prelude::*;
use vstd::utf8::{decode_utf8, encode_utf8, valid_utf8};

use bytes::{Bytes, BytesMut};
use std::string::FromUtf8Error;
use tokio::net::tcp::{OwnedReadHalf, OwnedWriteHalf};
use tokio::net::TcpStream;

verus! {

/* ---- bytes::Bytes, an immutable byte buffer ---- */

#[verifier::external_type_specification]
#[verifier::external_body]
pub struct ExBytes(bytes::Bytes);

/// The bytes that a `Bytes` buffer holds.
pub uninterp spec fn bytes_contents(b: Bytes) -> Seq<u8>;

/// `impl From<Vec<u8>> for Bytes` (bytes 1.12): the buffer takes over the
/// vector's allocation and holds exactly the vector's bytes.
#[verifier::external_body]
pub(crate) fn bytes_from_vec(v: Vec<u8>) -> (r: Bytes)
    ensures
        bytes_contents(r) == v@,
{
    Bytes::from(v)
}

/// `Bytes::from_owner` (bytes 1.12): the buffer keeps the owner alive and
/// holds the bytes of `owner.as_ref()`, which for a vector are its elements.
#[verifier::external_body]
pub(crate) fn bytes_from_owner(v: Vec<u8>) -> (r: Bytes)
    ensures
        bytes_contents(r) == v@,
{
    Bytes::from_owner(v)
}

/// `<Bytes as AsRef<[u8]>>::as_ref` (bytes 1.12): the slice of the bytes
/// the buffer holds.
#[verifier::external_body]
pub(crate) fn bytes_as_slice(b: &Bytes) -> (r: &[u8])
    ensures
        r@ == bytes_contents(*b),
{
    b.as_ref()
}

/* ---- bytes::BytesMut, a growable byte buffer ---- */

#[verifier::external_type_specification]
#[verifier::external_body]
pub struct ExBytesMut(bytes::BytesMut);

/// The bytes that a `BytesMut` buffer holds.
pub uninterp spec fn bytes_mut_contents(b: BytesMut) -> Seq<u8>;

/// `BytesMut::with_capacity` (bytes 1.12): an empty buffer ("contains no
/// data, even though there is capacity").
#[verifier::external_body]
pub(crate) fn bytes_mut_with_capacity(capacity: usize) -> (r: BytesMut)
    ensures
        bytes_mut_contents(r) == Seq::<u8>::empty(),
{
    BytesMut::with_capacity(capacity)
}

/// `<BytesMut as AsRef<[u8]>>::as_ref` (bytes 1.12): the slice of the bytes
/// the buffer holds.
#[verifier::external_body]
pub(crate) fn bytes_mut_as_slice(b: &BytesMut) -> (r: &[u8])
    ensures
        r@ == bytes_mut_contents(*b),
{
    b.as_ref()
}

/// `<BytesMut as Buf>::advance` (bytes 1.12): drops the first `count`
/// bytes; it panics when `count` exceeds the length, which `requires` rules
/// out.
#[verifier::external_body]
pub(crate) fn bytes_mut_advance(b: &mut BytesMut, count: usize)
    requires
        count <= bytes_mut_contents(*old(b)).len(),
    ensures
        bytes_mut_contents(*final(b)) == bytes_mut_contents(*old(b)).skip(count as int),
{
    bytes::Buf::advance(b, count)
}

/* ---- UTF-8 conversions of std's String ---- */

#[verifier::external_type_specification]
#[verifier::external_body]
pub struct ExFromUtf8Error(std::string::FromUtf8Error);

/// `String::from_utf8`: succeeds exactly when the bytes are valid UTF-8,
/// and then the string holds the characters they encode.
#[verifier::external_body]
pub(crate) fn string_from_utf8(v: Vec<u8>) -> (r: Result<String, FromUtf8Error>)
    ensures
        r is Ok <==> valid_utf8(v@),
        r matches Ok(s) ==> s@ == decode_utf8(v@),
{
    String::from_utf8(v)
}

/// `String::into_bytes`: the UTF-8 encoding of the string's characters.
#[verifier::external_body]
pub(crate) fn string_into_bytes(s: String) -> (r: Vec<u8>)
    ensures
        r@ == encode_utf8(s@),
{
    s.into_bytes()
}

/* ---- tokio's TCP stream and its owned halves ---- */

#[verifier::external_type_specification]
#[verifier::external_body]
pub struct ExTcpStream(tokio::net::TcpStream);

#[verifier::external_type_specification]
#[verifier::external_body]
pub struct ExOwnedReadHalf(tokio::net::tcp::OwnedReadHalf);

#[verifier::external_type_specification]
#[verifier::external_body]
pub struct ExOwnedWriteHalf(tokio::net::tcp::OwnedWriteHalf);

/// `TcpStream::into_split` (tokio 1.54): the read and write halves of the
/// stream. Nothing is stated of them: they are opaque handles.
#[verifier::external_body]
pub(crate) fn tcp_into_split(stream: TcpStream) -> (OwnedReadHalf, OwnedWriteHalf) {
    stream.into_split()
}

} // verus!
