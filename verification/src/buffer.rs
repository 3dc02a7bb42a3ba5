//! Payloads of the two-sided exchange: a vector of one of four element
//! types, the type byte that names it, and its bytes as they lie in memory.

use vstd::prelude::*;
use vstd::endian::{Endian, endianness};

use crate::codec::byte_at;
use crate::header::MessageHeader;

verus! {

/// The element type of a payload.
#[derive(Debug, Clone, Copy, PartialEq, Eq, Structural)]
pub enum ElementKind {
    F32,
    F64,
    I32,
    I64,
}

impl ElementKind {
    /// The byte that names this element type on the wire.
    pub open spec fn spec_type_id(self) -> u8 {
        match self {
            ElementKind::F32 => 0,
            ElementKind::F64 => 1,
            ElementKind::I32 => 2,
            ElementKind::I64 => 3,
        }
    }

    /// The element type that a type byte names, if any.
    pub open spec fn spec_from_type_id(id: u8) -> Option<ElementKind> {
        if id == 0 {
            Some(ElementKind::F32)
        } else if id == 1 {
            Some(ElementKind::F64)
        } else if id == 2 {
            Some(ElementKind::I32)
        } else if id == 3 {
            Some(ElementKind::I64)
        } else {
            None
        }
    }

    /// Bytes per element.
    pub open spec fn spec_width(self) -> nat {
        match self {
            ElementKind::F32 => 4,
            ElementKind::F64 => 8,
            ElementKind::I32 => 4,
            ElementKind::I64 => 8,
        }
    }

    /// The element type that a type byte names; `None` for a byte above 3.
    pub fn from_type_id(id: u8) -> (k: Option<ElementKind>)
        ensures
            k == Self::spec_from_type_id(id),
    {
        match id {
            0 => Some(ElementKind::F32),
            1 => Some(ElementKind::F64),
            2 => Some(ElementKind::I32),
            3 => Some(ElementKind::I64),
            _ => None,
        }
    }
}

/// The type bytes are 0 for `F32`, 1 for `F64`, 2 for `I32` and 3 for
/// `I64`; every byte below 4 names exactly the kind that has it, and no
/// other byte names a kind. `F32` and `I32` elements take four bytes,
/// `F64` and `I64` elements eight.
pub proof fn lemma_type_id_table(k: ElementKind, id: u8)
    ensures
        ElementKind::F32.spec_type_id() == 0,
        ElementKind::F64.spec_type_id() == 1,
        ElementKind::I32.spec_type_id() == 2,
        ElementKind::I64.spec_type_id() == 3,
        ElementKind::spec_from_type_id(id) is Some <==> id < 4,
        ElementKind::spec_from_type_id(id) == Some(k) <==> k.spec_type_id() == id,
        ElementKind::F32.spec_width() == 4 && ElementKind::I32.spec_width() == 4,
        ElementKind::F64.spec_width() == 8 && ElementKind::I64.spec_width() == 8,
{
}

/// A buffer that holds one of four element types. The two floating-point
/// variants hold the IEEE-754 bit pattern of each element (`f32::to_bits`,
/// `f64::to_bits`), which is exactly what is transmitted for them.
#[derive(Debug, Clone)]
pub enum DynamicBuffer {
    /// 32-bit floating point vector, as bit patterns
    F32(Vec<u32>),
    /// 64-bit floating point vector, as bit patterns
    F64(Vec<u64>),
    /// 32-bit integer vector
    I32(Vec<i32>),
    /// 64-bit integer vector
    I64(Vec<i64>),
}

/// The bytes of the low `width` bytes of `x` in byte order `e`.
pub open spec fn word_bytes(x: u64, width: nat, e: Endian) -> Seq<u8> {
    Seq::new(
        width,
        |k: int|
            match e {
                Endian::Little => byte_at(x, k),
                Endian::Big => byte_at(x, width - 1 - k),
            },
    )
}

/// The in-memory bytes of a sequence of `width`-byte words in byte order `e`.
pub open spec fn words_bytes(words: Seq<u64>, width: nat, e: Endian) -> Seq<u8> {
    Seq::new(words.len() * width, |i: int| word_bytes(words[i / width as int], width, e)[i % width as int])
}

/// In memory, word `i` occupies bytes `i * width .. (i + 1) * width`: byte
/// `k` of that range is the word's byte `k` counted from the least
/// significant one on a little-endian machine, and counted from the most
/// significant one on a big-endian machine.
pub proof fn lemma_words_bytes_layout(words: Seq<u64>, width: nat, e: Endian, i: int, k: int)
    requires
        width > 0,
        0 <= i < words.len(),
        0 <= k < width,
    ensures
        words_bytes(words, width, e).len() == words.len() * width,
        0 <= i * width + k < words.len() * width,
        words_bytes(words, width, e)[i * width + k] == match e {
            Endian::Little => byte_at(words[i], k),
            Endian::Big => byte_at(words[i], width - 1 - k),
        },
{
    let x = i * width + k;
    assert(0 <= x < words.len() * width) by (nonlinear_arith)
        requires
            x == i * width + k,
            0 <= i < words.len(),
            0 <= k < width,
    ;
    vstd::arithmetic::div_mod::lemma_fundamental_div_mod_converse(x, width as int, i, k);
}

/// The bytes of a word are its base-256 digits: byte `k` is the value
/// divided by 256^k, modulo 256.
pub proof fn lemma_byte_at_digits(x: u64)
    ensures
        byte_at(x, 0) as int == x as int % 0x100,
        byte_at(x, 1) as int == (x as int / 0x100) % 0x100,
        byte_at(x, 2) as int == (x as int / 0x1_0000) % 0x100,
        byte_at(x, 3) as int == (x as int / 0x100_0000) % 0x100,
        byte_at(x, 4) as int == (x as int / 0x1_0000_0000) % 0x100,
        byte_at(x, 5) as int == (x as int / 0x100_0000_0000) % 0x100,
        byte_at(x, 6) as int == (x as int / 0x1_0000_0000_0000) % 0x100,
        byte_at(x, 7) as int == (x as int / 0x100_0000_0000_0000) % 0x100,
{
    assert(((x >> 0u64) & 0xff) == x % 0x100) by (bit_vector);
    assert(((x >> 8u64) & 0xff) == (x / 0x100) % 0x100) by (bit_vector);
    assert(((x >> 16u64) & 0xff) == (x / 0x1_0000) % 0x100) by (bit_vector);
    assert(((x >> 24u64) & 0xff) == (x / 0x100_0000) % 0x100) by (bit_vector);
    assert(((x >> 32u64) & 0xff) == (x / 0x1_0000_0000) % 0x100) by (bit_vector);
    assert(((x >> 40u64) & 0xff) == (x / 0x100_0000_0000) % 0x100) by (bit_vector);
    assert(((x >> 48u64) & 0xff) == (x / 0x1_0000_0000_0000) % 0x100) by (bit_vector);
    assert(((x >> 56u64) & 0xff) == (x / 0x100_0000_0000_0000) % 0x100) by (bit_vector);
}

pub open spec fn u32_words(v: Seq<u32>) -> Seq<u64> {
    v.map_values(|x: u32| x as u64)
}

pub open spec fn u64_words(v: Seq<u64>) -> Seq<u64> {
    v
}

pub open spec fn i32_words(v: Seq<i32>) -> Seq<u64> {
    v.map_values(|x: i32| (x as u32) as u64)
}

pub open spec fn i64_words(v: Seq<i64>) -> Seq<u64> {
    v.map_values(|x: i64| x as u64)
}

impl DynamicBuffer {
    /// The element type of the buffer.
    pub open spec fn kind(self) -> ElementKind {
        match self {
            DynamicBuffer::F32(_) => ElementKind::F32,
            DynamicBuffer::F64(_) => ElementKind::F64,
            DynamicBuffer::I32(_) => ElementKind::I32,
            DynamicBuffer::I64(_) => ElementKind::I64,
        }
    }

    /// The number of elements.
    pub open spec fn spec_len(self) -> nat {
        match self {
            DynamicBuffer::F32(v) => v.len() as nat,
            DynamicBuffer::F64(v) => v.len() as nat,
            DynamicBuffer::I32(v) => v.len() as nat,
            DynamicBuffer::I64(v) => v.len() as nat,
        }
    }

    /// The elements as unsigned words of the element's width (two's
    /// complement for the signed types).
    pub open spec fn words(self) -> Seq<u64> {
        match self {
            DynamicBuffer::F32(v) => u32_words(v@),
            DynamicBuffer::F64(v) => u64_words(v@),
            DynamicBuffer::I32(v) => i32_words(v@),
            DynamicBuffer::I64(v) => i64_words(v@),
        }
    }

    /// The bytes of the elements as they lie in this machine's memory.
    pub open spec fn native_bytes(self) -> Seq<u8> {
        words_bytes(self.words(), self.kind().spec_width(), endianness())
    }

    /// Returns the length of the buffer.
    pub fn len(&self) -> (n: usize)
        ensures
            n == self.spec_len(),
    {
        match self {
            DynamicBuffer::F32(v) => v.len(),
            DynamicBuffer::F64(v) => v.len(),
            DynamicBuffer::I32(v) => v.len(),
            DynamicBuffer::I64(v) => v.len(),
        }
    }

    /// Returns the type identifier for the buffer.
    pub fn type_id(&self) -> (id: u8)
        ensures
            id == self.kind().spec_type_id(),
    {
        match self {
            DynamicBuffer::F32(_) => 0,
            DynamicBuffer::F64(_) => 1,
            DynamicBuffer::I32(_) => 2,
            DynamicBuffer::I64(_) => 3,
        }
    }

    /// The header that announces this buffer: its type byte and its length.
    pub open spec fn spec_header(self) -> MessageHeader {
        MessageHeader { data_type: self.kind().spec_type_id(), count: self.spec_len() as u64 }
    }

    /// Returns the header that announces this buffer.
    pub fn header(&self) -> (h: MessageHeader)
        ensures
            h == self.spec_header(),
    {
        MessageHeader { data_type: self.type_id(), count: self.len() as u64 }
    }

    /// Returns the bytes of the elements as they lie in memory.
    pub fn to_native_bytes(&self) -> (bytes: Vec<u8>)
        ensures
            bytes@ == self.native_bytes(),
            bytes@.len() == self.spec_len() * self.kind().spec_width(),
    {
        match self {
            DynamicBuffer::F32(v) => u32_slice_bytes(v.as_slice()),
            DynamicBuffer::F64(v) => u64_slice_bytes(v.as_slice()),
            DynamicBuffer::I32(v) => i32_slice_bytes(v.as_slice()),
            DynamicBuffer::I64(v) => i64_slice_bytes(v.as_slice()),
        }
    }
}

/// Calls `bytemuck::cast_slice::<u32, u8>` and copies the result. The
/// contract claims that the bytes are those of each element in turn, in this
/// machine's byte order (`vstd::endian::endianness`): the cast reinterprets
/// the slice's memory, and a cast to bytes never panics.
#[verifier::external_body]
fn u32_slice_bytes(v: &[u32]) -> (bytes: Vec<u8>)
    ensures
        bytes@ == words_bytes(u32_words(v@), 4, endianness()),
{
    bytemuck::cast_slice::<u32, u8>(v).to_vec()
}

/// Calls `bytemuck::cast_slice::<u64, u8>` and copies the result; the
/// contract claims the same as for `u32_slice_bytes`, with 8-byte words.
#[verifier::external_body]
fn u64_slice_bytes(v: &[u64]) -> (bytes: Vec<u8>)
    ensures
        bytes@ == words_bytes(u64_words(v@), 8, endianness()),
{
    bytemuck::cast_slice::<u64, u8>(v).to_vec()
}

/// Calls `bytemuck::cast_slice::<i32, u8>` and copies the result; the
/// contract claims the same as for `u32_slice_bytes`, each element taken as
/// its two's-complement bits.
#[verifier::external_body]
fn i32_slice_bytes(v: &[i32]) -> (bytes: Vec<u8>)
    ensures
        bytes@ == words_bytes(i32_words(v@), 4, endianness()),
{
    bytemuck::cast_slice::<i32, u8>(v).to_vec()
}

/// Calls `bytemuck::cast_slice::<i64, u8>` and copies the result; the
/// contract claims the same as for `i32_slice_bytes`, with 8-byte words.
#[verifier::external_body]
fn i64_slice_bytes(v: &[i64]) -> (bytes: Vec<u8>)
    ensures
        bytes@ == words_bytes(i64_words(v@), 8, endianness()),
{
    bytemuck::cast_slice::<i64, u8>(v).to_vec()
}

} // verus!
