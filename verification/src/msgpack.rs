//! MessagePack framing: the byte layouts that the encoder and decoder use,
//! and the calls into `rmp` that produce and consume them.

use vstd::prelude::*;
use vstd::utf8::*;
use rmp::decode::RmpRead;

verus! {

/// The kind of a MessagePack marker byte, as far as the decoder needs it.
/// Every marker that is neither an array, a string nor nil is kept as its byte.
#[derive(Clone, Copy, Debug, PartialEq, Eq, Structural)]
pub enum Marker {
    FixArray(u8),
    Array16,
    Array32,
    FixStr(u8),
    Str8,
    Str16,
    Str32,
    Null,
    Other(u8),
}

/// The marker that a byte stands for (MessagePack specification, "Formats").
pub open spec fn marker_of(b: u8) -> Marker {
    if 0x90 <= b && b <= 0x9f {
        Marker::FixArray((b - 0x90) as u8)
    } else if 0xa0 <= b && b <= 0xbf {
        Marker::FixStr((b - 0xa0) as u8)
    } else if b == 0xc0 {
        Marker::Null
    } else if b == 0xd9 {
        Marker::Str8
    } else if b == 0xda {
        Marker::Str16
    } else if b == 0xdb {
        Marker::Str32
    } else if b == 0xdc {
        Marker::Array16
    } else if b == 0xdd {
        Marker::Array32
    } else {
        Marker::Other(b)
    }
}

/// A 16-bit value in network (big-endian) byte order.
pub open spec fn be16(v: u16) -> Seq<u8> {
    seq![(v / 0x100) as u8, (v % 0x100) as u8]
}

/// A 32-bit value in network (big-endian) byte order.
pub open spec fn be32(v: u32) -> Seq<u8> {
    seq![
        (v / 0x100_0000) as u8,
        ((v / 0x1_0000) % 0x100) as u8,
        ((v / 0x100) % 0x100) as u8,
        (v % 0x100) as u8,
    ]
}

/// The value of two bytes read in network order.
pub open spec fn be16_value(hi: u8, lo: u8) -> u16 {
    (hi as int * 0x100 + lo as int) as u16
}

/// The value of four bytes read in network order.
pub open spec fn be32_value(b0: u8, b1: u8, b2: u8, b3: u8) -> u32 {
    (b0 as int * 0x100_0000 + b1 as int * 0x1_0000 + b2 as int * 0x100 + b3 as int) as u32
}

/// The encoding of nil.
pub open spec fn nil_bytes() -> Seq<u8> {
    seq![0xc0u8]
}

/// The shortest header of an array of `len` items.
pub open spec fn array_len_bytes(len: u32) -> Seq<u8> {
    if len < 16 {
        seq![(0x90 + len) as u8]
    } else if len <= 0xffff {
        seq![0xdcu8] + be16(len as u16)
    } else {
        seq![0xddu8] + be32(len)
    }
}

/// The shortest header of a string of `len` bytes.
pub open spec fn str_len_bytes(len: u32) -> Seq<u8> {
    if len < 32 {
        seq![(0xa0 + len) as u8]
    } else if len < 256 {
        seq![0xd9u8, len as u8]
    } else if len <= 0xffff {
        seq![0xdau8] + be16(len as u16)
    } else {
        seq![0xdbu8] + be32(len)
    }
}

/// The encoding of a string: its header, then its UTF-8 bytes.
pub open spec fn str_bytes(s: Seq<char>) -> Seq<u8> {
    str_len_bytes(encode_utf8(s).len() as u32) + encode_utf8(s)
}


/// `rmp::decode::read_marker`, reading from the bytes of `data` that start at
/// `pos`: it reads one byte and classifies it with `rmp::Marker::from_u8`.
/// Claimed: it fails exactly when no byte is left, and otherwise gives the
/// marker of that byte (the variants are copied one for one; the others keep
/// their byte through `Marker::to_u8`, which undoes `from_u8`).
#[verifier::external_body]
pub(crate) fn read_marker_at(data: &[u8], pos: usize) -> (r: Option<Marker>)
    requires
        pos <= data@.len(),
    ensures
        pos < data@.len() ==> r == Some(marker_of(data@[pos as int])),
        pos == data@.len() ==> r is None,
{
    let mut rd = rmp::decode::Bytes::new(&data[pos..]);
    match rmp::decode::read_marker(&mut rd) {
        Ok(rmp::Marker::FixArray(n)) => Some(Marker::FixArray(n)),
        Ok(rmp::Marker::Array16) => Some(Marker::Array16),
        Ok(rmp::Marker::Array32) => Some(Marker::Array32),
        Ok(rmp::Marker::FixStr(n)) => Some(Marker::FixStr(n)),
        Ok(rmp::Marker::Str8) => Some(Marker::Str8),
        Ok(rmp::Marker::Str16) => Some(Marker::Str16),
        Ok(rmp::Marker::Str32) => Some(Marker::Str32),
        Ok(rmp::Marker::Null) => Some(Marker::Null),
        Ok(other) => Some(Marker::Other(other.to_u8())),
        Err(_) => None,
    }
}

/// `RmpRead::read_data_u8` of `rmp` on the bytes of `data` from `pos`.
/// Claimed: it fails exactly when no byte is left, and otherwise gives that byte.
#[verifier::external_body]
pub(crate) fn read_data_u8_at(data: &[u8], pos: usize) -> (r: Option<u8>)
    requires
        pos <= data@.len(),
    ensures
        pos + 1 <= data@.len() ==> r == Some(data@[pos as int]),
        pos + 1 > data@.len() ==> r is None,
{
    let mut rd = rmp::decode::Bytes::new(&data[pos..]);
    rd.read_data_u8().ok()
}

/// `RmpRead::read_data_u16` of `rmp` on the bytes of `data` from `pos`.
/// Claimed: it fails exactly when fewer than two bytes are left, and
/// otherwise gives the two bytes read in network order.
#[verifier::external_body]
pub(crate) fn read_data_u16_at(data: &[u8], pos: usize) -> (r: Option<u16>)
    requires
        pos <= data@.len(),
    ensures
        pos + 2 <= data@.len() ==> r == Some(
            be16_value(data@[pos as int], data@[pos + 1]),
        ),
        pos + 2 > data@.len() ==> r is None,
{
    let mut rd = rmp::decode::Bytes::new(&data[pos..]);
    rd.read_data_u16().ok()
}

/// `RmpRead::read_data_u32` of `rmp` on the bytes of `data` from `pos`.
/// Claimed: it fails exactly when fewer than four bytes are left, and
/// otherwise gives the four bytes read in network order.
#[verifier::external_body]
pub(crate) fn read_data_u32_at(data: &[u8], pos: usize) -> (r: Option<u32>)
    requires
        pos <= data@.len(),
    ensures
        pos + 4 <= data@.len() ==> r == Some(
            be32_value(data@[pos as int], data@[pos + 1], data@[pos + 2], data@[pos + 3]),
        ),
        pos + 4 > data@.len() ==> r is None,
{
    let mut rd = rmp::decode::Bytes::new(&data[pos..]);
    rd.read_data_u32().ok()
}

/// `rmp::encode::write_nil`, writing into an `rmp::encode::ByteBuf` made of `wr`.
/// Claimed: it appends the nil byte 0xc0. A `ByteBuf` cannot fail to write
/// (its error type is `Infallible`).
#[verifier::external_body]
pub(crate) fn write_nil(wr: &mut Vec<u8>)
    ensures
        final(wr)@ == old(wr)@ + nil_bytes(),
{
    let mut buf = rmp::encode::ByteBuf::from_vec(std::mem::take(wr));
    let _ = rmp::encode::write_nil(&mut buf);
    *wr = buf.into_vec();
}

/// `rmp::encode::write_array_len`, writing into an `rmp::encode::ByteBuf` made of `wr`.
/// Claimed: it appends the shortest array header for `len` (fixarray below 16,
/// array 16 up to 0xffff, array 32 above). A `ByteBuf` cannot fail to write.
#[verifier::external_body]
pub(crate) fn write_array_len(wr: &mut Vec<u8>, len: u32)
    ensures
        final(wr)@ == old(wr)@ + array_len_bytes(len),
{
    let mut buf = rmp::encode::ByteBuf::from_vec(std::mem::take(wr));
    let _ = rmp::encode::write_array_len(&mut buf, len);
    *wr = buf.into_vec();
}

/// `rmp::encode::write_str`, writing into an `rmp::encode::ByteBuf` made of `wr`.
/// Claimed: it appends the shortest string header for the byte length of `s`
/// (taken as a `u32`, as `rmp` does), then the UTF-8 bytes of `s`.
/// A `ByteBuf` cannot fail to write.
#[verifier::external_body]
pub(crate) fn write_str(wr: &mut Vec<u8>, s: &str)
    ensures
        final(wr)@ == old(wr)@ + str_bytes(s@),
{
    let mut buf = rmp::encode::ByteBuf::from_vec(std::mem::take(wr));
    let _ = rmp::encode::write_str(&mut buf, s);
    *wr = buf.into_vec();
}

/// Network order read back gives the 16-bit value that was written.
pub proof fn lemma_be16_value(v: u16)
    ensures
        be16_value(be16(v)[0], be16(v)[1]) == v,
{
    assert(be16(v)[0] as int == v / 0x100);
    assert(be16(v)[1] as int == v % 0x100);
}

/// Network order read back gives the 32-bit value that was written.
pub proof fn lemma_be32_value(v: u32)
    ensures
        be32_value(be32(v)[0], be32(v)[1], be32(v)[2], be32(v)[3]) == v,
{
    let b = be32(v);
    assert(b[0] as int == v / 0x100_0000);
    assert(b[1] as int == (v / 0x1_0000) % 0x100);
    assert(b[2] as int == (v / 0x100) % 0x100);
    assert(b[3] as int == v % 0x100);
    assert(v / 0x100_0000 * 0x100_0000 + (v / 0x1_0000) % 0x100 * 0x1_0000 + (v / 0x100) % 0x100 * 0x100
        + v % 0x100 == v) by (nonlinear_arith);
}

} // verus!
