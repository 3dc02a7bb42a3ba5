//! The fixed nine-byte header that announces each payload: one byte of
//! element type, then the element count as a little-endian `u64`.

use vstd::prelude::*;

use crate::codec::{
    base256_value, decimal, lemma_from_le_bytes_value, lemma_le_bytes_value, lemma_u64_le_bytes_roundtrip, lemma_u64_le_value_roundtrip, push_decimal,
    push_u64_le, read_u64_le, u64_from_le_bytes, u64_le_bytes,
};

verus! {

/// Number of bytes of an encoded header.
pub const HEADER_LEN: usize = 9;

/// Header for messages containing data type and count information.
#[derive(Debug, Clone, Copy, PartialEq, Eq, Structural)]
pub struct MessageHeader {
    /// The data type identifier
    pub data_type: u8,
    /// The number of elements
    pub count: u64,
}

/// The encoding of `h`: its type byte, then the little-endian bytes of its count.
pub open spec fn header_bytes(h: MessageHeader) -> Seq<u8> {
    seq![h.data_type] + u64_le_bytes(h.count)
}

/// The header that nine bytes encode; `None` for any other length.
pub open spec fn parse_header(b: Seq<u8>) -> Option<MessageHeader> {
    if b.len() == HEADER_LEN {
        Some(MessageHeader { data_type: b[0], count: u64_from_le_bytes(b.subrange(1, 9)) })
    } else {
        None
    }
}

/// The message with which a header of `len` bytes is refused.
pub open spec fn header_length_message(len: nat) -> Seq<char> {
    "Invalid header length: expected 9, got "@ + decimal(len)
}

impl Default for MessageHeader {
    fn default() -> (h: Self)
        ensures
            h.data_type == 0,
            h.count == 0,
    {
        MessageHeader { data_type: 0, count: 0 }
    }
}

impl MessageHeader {
    /// Converts the header to a byte array.
    pub fn to_bytes(&self) -> (bytes: Vec<u8>)
        ensures
            bytes@ == header_bytes(*self),
            bytes@.len() == HEADER_LEN,
    {
        let mut buffer = vec![self.data_type];
        push_u64_le(&mut buffer, self.count);
        buffer
    }

    /// Creates a header from a byte array; only an input of exactly nine
    /// bytes is accepted.
    pub fn from_bytes(bytes: &[u8]) -> (r: Result<Self, String>)
        ensures
            match r {
                Ok(h) => parse_header(bytes@) == Some(h),
                Err(e) => parse_header(bytes@) is None && e@ == header_length_message(
                    bytes@.len(),
                ),
            },
    {
        if bytes.len() != HEADER_LEN {
            let mut msg = String::from_str("Invalid header length: expected 9, got ");
            push_decimal(&mut msg, bytes.len());
            return Err(msg);
        }
        let data_type = bytes[0];
        let count = read_u64_le(bytes, 1);
        Ok(MessageHeader { data_type, count })
    }
}

/// The layout of an encoded header, for every header whatever its type:
/// nine bytes, the type byte first, then the count's base-256 digits, least
/// significant first.
pub proof fn lemma_header_layout(h: MessageHeader)
    ensures
        header_bytes(h).len() == 9,
        header_bytes(h)[0] == h.data_type,
        h.count as int == base256_value(
            header_bytes(h)[1],
            header_bytes(h)[2],
            header_bytes(h)[3],
            header_bytes(h)[4],
            header_bytes(h)[5],
            header_bytes(h)[6],
            header_bytes(h)[7],
            header_bytes(h)[8],
        ),
{
    lemma_le_bytes_value(h.count);
}

/// What a nine-byte header decodes to, whatever its type byte: the type is
/// the first byte and the count is the base-256 value of the next eight,
/// least significant first.
pub proof fn lemma_parse_layout(b: Seq<u8>)
    requires
        b.len() == HEADER_LEN,
    ensures
        parse_header(b) is Some,
        parse_header(b).unwrap().data_type == b[0],
        parse_header(b).unwrap().count as int == base256_value(b[1], b[2], b[3], b[4], b[5], b[6], b[7], b[8]),
{
    let s = b.subrange(1, 9);
    lemma_from_le_bytes_value(s);
    assert(s[0] == b[1] && s[1] == b[2] && s[2] == b[3] && s[3] == b[4] && s[4] == b[5] && s[5]
        == b[6] && s[6] == b[7] && s[7] == b[8]);
}

/// Decoding the encoding of any header gives that header back.
pub proof fn lemma_header_roundtrip(h: MessageHeader)
    ensures
        header_bytes(h).len() == HEADER_LEN,
        parse_header(header_bytes(h)) == Some(h),
{
    lemma_u64_le_value_roundtrip(h.count);
    assert(header_bytes(h).subrange(1, 9) =~= u64_le_bytes(h.count));
}

/// A sequence of bytes is accepted exactly when it has nine bytes, and
/// encoding what it decodes to gives the same bytes.
pub proof fn lemma_header_bytes_roundtrip(b: Seq<u8>)
    ensures
        parse_header(b) is Some <==> b.len() == HEADER_LEN,
        b.len() == HEADER_LEN ==> header_bytes(parse_header(b).unwrap()) == b,
{
    if b.len() == HEADER_LEN {
        lemma_u64_le_bytes_roundtrip(b.subrange(1, 9));
        assert(header_bytes(parse_header(b).unwrap()) =~= b);
    }
}

} // verus!
