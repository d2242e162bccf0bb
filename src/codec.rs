//! Byte-level codecs shared by frame bodies: length-prefixed short strings
//! and the fixed-size frame header.
//!
//! Wire format of the header (six bytes): kind tag, flag bits, then the body
//! length as a big-endian `u32`. A short string is one length byte followed
//! by that many bytes of UTF-8 text.

use vstd::prelude::*;
use vstd::string::*;
use vstd::utf8::*;

verus! {

/// The two failure categories of the frame codecs.
#[derive(Debug, Clone, Copy, PartialEq, Eq, Structural)]
pub enum ProtError {
    /// A field is too long for its length prefix; nothing was written.
    TooLong,
    /// The input is truncated, inconsistent with its header or not UTF-8.
    Malformed,
}

pub type ProxyResult<T> = Result<T, ProtError>;

/// Largest byte length a short string can carry (one-byte prefix).
pub const SHORT_STRING_MAX: usize = 255;

/// Size in bytes of an encoded frame header.
pub const HEADER_LEN: usize = 6;

/// Kind tag of the authentication token frame.
pub const KIND_TOKEN: u8 = 5;

/// The encoding of a short string whose UTF-8 bytes are `b`.
pub open spec fn short_string_bytes(b: Seq<u8>) -> Seq<u8> {
    seq![b.len() as u8] + b
}

/// Decoding a short string at the start of `b`: the text and the number of
/// bytes consumed, or `None` when `b` is truncated or not UTF-8.
pub open spec fn spec_read_short_string(b: Seq<u8>) -> Option<(Seq<char>, int)> {
    if b.len() == 0 {
        None
    } else {
        let n = b[0] as int;
        if b.len() < 1 + n {
            None
        } else {
            let text = b.subrange(1, 1 + n);
            if valid_utf8(text) {
                Some((decode_utf8(text), 1 + n))
            } else {
                None
            }
        }
    }
}

/// Relies on `String::from_utf8`: it succeeds exactly on valid UTF-8 and then
/// holds the decoded characters.
#[verifier::external_body]
fn utf8_to_string(b: Vec<u8>) -> (r: Option<String>)
    ensures
        r is Some <==> valid_utf8(b@),
        r matches Some(s) ==> s@ == decode_utf8(b@),
{
    String::from_utf8(b).ok()
}

/// Appends the short-string encoding of `text` to `buf` and returns the number
/// of bytes written; a text longer than the prefix can express is refused
/// before anything is written.
pub fn write_short_string(buf: &mut Vec<u8>, text: &str) -> (r: ProxyResult<usize>)
    ensures
        r is Ok <==> text.spec_bytes().len() <= SHORT_STRING_MAX,
        r matches Ok(n) ==> n == text.spec_bytes().len() + 1
            && final(buf)@ == old(buf)@ + short_string_bytes(text.spec_bytes()),
        r matches Err(e) ==> e == ProtError::TooLong && final(buf)@ == old(buf)@,
{
    let bytes = text.as_bytes();
    let n = bytes.len();
    if n > SHORT_STRING_MAX {
        return Err(ProtError::TooLong);
    }
    buf.push(n as u8);
    let ghost start = buf@;
    let mut i: usize = 0;
    while i < n
        invariant
            n == bytes@.len(),
            i <= n,
            buf@ == start + bytes@.subrange(0, i as int),
        decreases n - i,
    {
        buf.push(bytes[i]);
        i += 1;
        assert(bytes@.subrange(0, i as int) == bytes@.subrange(0, i - 1) + seq![bytes@[i - 1]]);
    }
    assert(bytes@.subrange(0, n as int) == bytes@);
    assert(start == old(buf)@ + seq![n as u8]);
    assert(final(buf)@ == old(buf)@ + short_string_bytes(text.spec_bytes()));
    Ok(n + 1)
}

/// Reads a short string from `buf` starting at `pos`; returns the text and
/// the position just after it.
pub fn read_short_string(buf: &[u8], pos: usize) -> (r: ProxyResult<(String, usize)>)
    requires
        pos <= buf@.len(),
    ensures
        ({
            let rest = buf@.subrange(pos as int, buf@.len() as int);
            match spec_read_short_string(rest) {
                None => r == Err::<(String, usize), ProtError>(ProtError::Malformed),
                Some((t, n)) => r matches Ok((s, p)) && s@ == t && p == pos + n,
            }
        }),
{
    if pos >= buf.len() {
        return Err(ProtError::Malformed);
    }
    let n = buf[pos] as usize;
    if buf.len() - pos - 1 < n {
        return Err(ProtError::Malformed);
    }
    let mut text: Vec<u8> = Vec::new();
    let len = buf.len();
    let mut i: usize = 0;
    while i < n
        invariant
            len == buf@.len(),
            pos + 1 + n <= buf@.len(),
            i <= n,
            text@ == buf@.subrange(pos + 1, pos + 1 + i),
        decreases n - i,
    {
        text.push(buf[pos + 1 + i]);
        i += 1;
    }
    let ghost rest = buf@.subrange(pos as int, buf@.len() as int);
    assert(rest.subrange(1, 1 + n) == text@);
    match utf8_to_string(text) {
        Some(s) => Ok((s, pos + 1 + n)),
        None => Err(ProtError::Malformed),
    }
}

/// The fixed-size header that precedes every frame body.
#[derive(Debug, Clone, Copy, PartialEq, Eq, Structural)]
pub struct ProtFrameHeader {
    pub kind: u8,
    pub flag: u8,
    /// Byte length of the body that follows the header.
    pub length: u32,
}

/// The six bytes that encode a header.
pub open spec fn header_bytes(h: ProtFrameHeader) -> Seq<u8> {
    seq![
        h.kind,
        h.flag,
        (h.length >> 24u32) as u8,
        (h.length >> 16u32) as u8,
        (h.length >> 8u32) as u8,
        h.length as u8,
    ]
}

/// The big-endian `u32` held by four bytes.
pub open spec fn be_u32(b0: u8, b1: u8, b2: u8, b3: u8) -> u32 {
    ((b0 as u32) << 24u32) | ((b1 as u32) << 16u32) | ((b2 as u32) << 8u32) | (b3 as u32)
}

/// Decoding a header from the start of `b`.
pub open spec fn spec_decode_header(b: Seq<u8>) -> Option<ProtFrameHeader> {
    if b.len() < HEADER_LEN {
        None
    } else {
        Some(ProtFrameHeader { kind: b[0], flag: b[1], length: be_u32(b[2], b[3], b[4], b[5]) })
    }
}

/// Splitting a `u32` into big-endian bytes and joining them back is the identity.
pub proof fn lemma_be_u32_round_trip(x: u32)
    ensures
        be_u32((x >> 24u32) as u8, (x >> 16u32) as u8, (x >> 8u32) as u8, x as u8) == x,
{
    assert(((((x >> 24u32) as u8) as u32) << 24u32) | ((((x >> 16u32) as u8) as u32) << 16u32)
        | ((((x >> 8u32) as u8) as u32) << 8u32) | ((x as u8) as u32) == x) by (bit_vector);
}

/// A header followed by any bytes decodes back to the same header.
pub proof fn lemma_header_round_trip(h: ProtFrameHeader, rest: Seq<u8>)
    ensures
        spec_decode_header(header_bytes(h) + rest) == Some(h),
{
    lemma_be_u32_round_trip(h.length);
    let b = header_bytes(h) + rest;
    assert(b[2] == (h.length >> 24u32) as u8);
}

impl ProtFrameHeader {
    pub fn new(kind: u8, flag: u8, length: u32) -> (r: ProtFrameHeader)
        ensures
            r == (ProtFrameHeader { kind, flag, length }),
    {
        ProtFrameHeader { kind, flag, length }
    }

    /// Appends the header's six bytes to `buf` and returns their count.
    pub fn encode(&self, buf: &mut Vec<u8>) -> (r: usize)
        ensures
            r == HEADER_LEN,
            final(buf)@ == old(buf)@ + header_bytes(*self),
    {
        buf.push(self.kind);
        buf.push(self.flag);
        buf.push((self.length >> 24u32) as u8);
        buf.push((self.length >> 16u32) as u8);
        buf.push((self.length >> 8u32) as u8);
        buf.push(self.length as u8);
        assert(final(buf)@ == old(buf)@ + header_bytes(*self));
        HEADER_LEN
    }

    /// Decodes a header from the first six bytes of `buf`.
    pub fn decode(buf: &[u8]) -> (r: ProxyResult<ProtFrameHeader>)
        ensures
            r == match spec_decode_header(buf@) {
                Some(h) => Ok::<ProtFrameHeader, ProtError>(h),
                None => Err(ProtError::Malformed),
            },
    {
        if buf.len() < HEADER_LEN {
            return Err(ProtError::Malformed);
        }
        let length = ((buf[2] as u32) << 24u32) | ((buf[3] as u32) << 16u32) | ((buf[4] as u32)
            << 8u32) | (buf[5] as u32);
        Ok(ProtFrameHeader { kind: buf[0], flag: buf[1], length })
    }
}

} // verus!
