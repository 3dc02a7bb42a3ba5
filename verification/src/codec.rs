//! Little-endian integer bytes and decimal text, stated as spec functions
//! and computed by verified code.

use vstd::prelude::*;

verus! {

/// Byte `k` (counting from the least significant byte) of `x`.
pub open spec fn byte_at(x: u64, k: int) -> u8 {
    ((x >> ((8 * k) as u64)) & 0xff) as u8
}

/// The eight bytes of `x`, least significant first (what `u64::to_le_bytes` gives).
pub open spec fn u64_le_bytes(x: u64) -> Seq<u8> {
    seq![
        byte_at(x, 0),
        byte_at(x, 1),
        byte_at(x, 2),
        byte_at(x, 3),
        byte_at(x, 4),
        byte_at(x, 5),
        byte_at(x, 6),
        byte_at(x, 7),
    ]
}

/// The value whose little-endian bytes are `b[0..8]` (what `u64::from_le_bytes` gives).
pub open spec fn u64_from_le_bytes(b: Seq<u8>) -> u64
    recommends
        b.len() == 8,
{
    (b[0] as u64) | (b[1] as u64) << 8u64 | (b[2] as u64) << 16u64 | (b[3] as u64) << 24u64 | (
    b[4] as u64) << 32u64 | (b[5] as u64) << 40u64 | (b[6] as u64) << 48u64 | (b[7] as u64)
        << 56u64
}

proof fn lemma_le_value_roundtrip_bv(x: u64)
    by (bit_vector)
    ensures
        x == (((x >> 0u64) & 0xff) as u8 as u64) | (((x >> 8u64) & 0xff) as u8 as u64) << 8u64 | (((x
            >> 16u64) & 0xff) as u8 as u64) << 16u64 | (((x >> 24u64) & 0xff) as u8 as u64) << 24u64
            | (((x >> 32u64) & 0xff) as u8 as u64) << 32u64 | (((x >> 40u64) & 0xff) as u8 as u64)
            << 40u64 | (((x >> 48u64) & 0xff) as u8 as u64) << 48u64 | (((x >> 56u64) & 0xff) as u8
            as u64) << 56u64,
{
}

proof fn lemma_le_bytes_roundtrip_bv(b0: u8, b1: u8, b2: u8, b3: u8, b4: u8, b5: u8, b6: u8, b7: u8, x: u64)
    by (bit_vector)
    requires
        x == (b0 as u64) | (b1 as u64) << 8u64 | (b2 as u64) << 16u64 | (b3 as u64) << 24u64 | (
        b4 as u64) << 32u64 | (b5 as u64) << 40u64 | (b6 as u64) << 48u64 | (b7 as u64) << 56u64,
    ensures
        b0 == ((x >> 0u64) & 0xff) as u8,
        b1 == ((x >> 8u64) & 0xff) as u8,
        b2 == ((x >> 16u64) & 0xff) as u8,
        b3 == ((x >> 24u64) & 0xff) as u8,
        b4 == ((x >> 32u64) & 0xff) as u8,
        b5 == ((x >> 40u64) & 0xff) as u8,
        b6 == ((x >> 48u64) & 0xff) as u8,
        b7 == ((x >> 56u64) & 0xff) as u8,
{
}

/// The value of eight bytes taken least significant first, in base 256.
pub open spec fn base256_value(b0: u8, b1: u8, b2: u8, b3: u8, b4: u8, b5: u8, b6: u8, b7: u8) -> int {
    b0 + 0x100 * b1 + 0x1_0000 * b2 + 0x100_0000 * b3 + 0x1_0000_0000 * b4 + 0x100_0000_0000 * b5
        + 0x1_0000_0000_0000 * b6 + 0x100_0000_0000_0000 * b7
}

proof fn lemma_or_is_sum_bv(b0: u8, b1: u8, b2: u8, b3: u8, b4: u8, b5: u8, b6: u8, b7: u8)
    by (bit_vector)
    ensures
        ((b0 as u64) | (b1 as u64) << 8u64 | (b2 as u64) << 16u64 | (b3 as u64) << 24u64 | (b4 as u64)
            << 32u64 | (b5 as u64) << 40u64 | (b6 as u64) << 48u64 | (b7 as u64) << 56u64) == b0 + 0x100
            * b1 + 0x1_0000 * b2 + 0x100_0000 * b3 + 0x1_0000_0000 * b4 + 0x100_0000_0000 * b5
            + 0x1_0000_0000_0000 * b6 + 0x100_0000_0000_0000 * b7,
{
}

/// Reading eight bytes little-endian gives their value in base 256, least
/// significant byte first.
pub proof fn lemma_from_le_bytes_value(b: Seq<u8>)
    requires
        b.len() == 8,
    ensures
        u64_from_le_bytes(b) as int == base256_value(b[0], b[1], b[2], b[3], b[4], b[5], b[6], b[7]),
{
    lemma_or_is_sum_bv(b[0], b[1], b[2], b[3], b[4], b[5], b[6], b[7]);
}

/// The eight little-endian bytes of a value are its base-256 digits, least
/// significant first: they add up, with weights 1, 256, 256^2, ..., to the
/// value.
pub proof fn lemma_le_bytes_value(x: u64)
    ensures
        u64_le_bytes(x).len() == 8,
        x as int == base256_value(
            u64_le_bytes(x)[0],
            u64_le_bytes(x)[1],
            u64_le_bytes(x)[2],
            u64_le_bytes(x)[3],
            u64_le_bytes(x)[4],
            u64_le_bytes(x)[5],
            u64_le_bytes(x)[6],
            u64_le_bytes(x)[7],
        ),
{
    lemma_u64_le_value_roundtrip(x);
    lemma_from_le_bytes_value(u64_le_bytes(x));
}

/// Reading back the little-endian bytes of a value gives the value.
pub proof fn lemma_u64_le_value_roundtrip(x: u64)
    ensures
        u64_from_le_bytes(u64_le_bytes(x)) == x,
{
    lemma_le_value_roundtrip_bv(x);
    let b = u64_le_bytes(x);
    assert(b[0] == ((x >> 0u64) & 0xff) as u8);
    assert(b[1] == ((x >> 8u64) & 0xff) as u8);
    assert(b[2] == ((x >> 16u64) & 0xff) as u8);
    assert(b[3] == ((x >> 24u64) & 0xff) as u8);
    assert(b[4] == ((x >> 32u64) & 0xff) as u8);
    assert(b[5] == ((x >> 40u64) & 0xff) as u8);
    assert(b[6] == ((x >> 48u64) & 0xff) as u8);
    assert(b[7] == ((x >> 56u64) & 0xff) as u8);
}

/// Eight bytes read as a little-endian value and written back are the same bytes.
pub proof fn lemma_u64_le_bytes_roundtrip(b: Seq<u8>)
    requires
        b.len() == 8,
    ensures
        u64_le_bytes(u64_from_le_bytes(b)) == b,
{
    let x = u64_from_le_bytes(b);
    lemma_le_bytes_roundtrip_bv(b[0], b[1], b[2], b[3], b[4], b[5], b[6], b[7], x);
    assert(u64_le_bytes(x) =~= b);
}

/// Pushes the little-endian bytes of `x` onto `out`.
pub fn push_u64_le(out: &mut Vec<u8>, x: u64)
    ensures
        final(out)@ == old(out)@ + u64_le_bytes(x),
{
    let ghost start = out@;
    out.push(((x >> 0) & 0xff) as u8);
    out.push(((x >> 8) & 0xff) as u8);
    out.push(((x >> 16) & 0xff) as u8);
    out.push(((x >> 24) & 0xff) as u8);
    out.push(((x >> 32) & 0xff) as u8);
    out.push(((x >> 40) & 0xff) as u8);
    out.push(((x >> 48) & 0xff) as u8);
    out.push(((x >> 56) & 0xff) as u8);
    assert(out@ =~= start + u64_le_bytes(x));
}

/// Reads the little-endian value held by `bytes[at..at + 8]`.
pub fn read_u64_le(bytes: &[u8], at: usize) -> (x: u64)
    requires
        at + 8 <= bytes@.len(),
    ensures
        x == u64_from_le_bytes(bytes@.subrange(at as int, at + 8)),
{
    let ghost b = bytes@.subrange(at as int, at + 8);
    assert(b[0] == bytes@[at as int] && b[1] == bytes@[at + 1] && b[2] == bytes@[at + 2] && b[3]
        == bytes@[at + 3] && b[4] == bytes@[at + 4] && b[5] == bytes@[at + 5] && b[6] == bytes@[at
        + 6] && b[7] == bytes@[at + 7]);
    (bytes[at] as u64) | (bytes[at + 1] as u64) << 8u64 | (bytes[at + 2] as u64) << 16u64 | (bytes[at
        + 3] as u64) << 24u64 | (bytes[at + 4] as u64) << 32u64 | (bytes[at + 5] as u64) << 40u64 | (
    bytes[at + 6] as u64) << 48u64 | (bytes[at + 7] as u64) << 56u64
}

/// The decimal digit character for `d` (`d < 10`).
pub open spec fn digit_char(d: nat) -> char
    recommends
        d < 10,
{
    (48 + d) as char
}

/// The decimal text of `n`, without sign or leading zeros (what `format!("{}", n)` prints).
pub open spec fn decimal(n: nat) -> Seq<char>
    decreases n,
{
    if n < 10 {
        seq![digit_char(n)]
    } else {
        decimal(n / 10).push(digit_char(n % 10))
    }
}

/// The number that a string of decimal digits denotes.
pub open spec fn digits_value(s: Seq<char>) -> int
    decreases s.len(),
{
    if s.len() == 0 {
        0
    } else {
        digits_value(s.drop_last()) * 10 + (s.last() as int - 48)
    }
}

/// The decimal text of `n` is a non-empty string of the characters `0` to
/// `9` that denotes `n`, and it starts with `0` only for `n == 0`.
pub proof fn lemma_decimal_denotes(n: nat)
    ensures
        decimal(n).len() >= 1,
        forall|i: int| 0 <= i < decimal(n).len() ==> '0' <= #[trigger] decimal(n)[i] <= '9',
        digits_value(decimal(n)) == n,
        decimal(n)[0] == '0' <==> n == 0,
    decreases n,
{
    if n >= 10 {
        lemma_decimal_denotes(n / 10);
        let d = decimal(n);
        let p = decimal(n / 10);
        assert(d.drop_last() =~= p);
        assert(d.last() as int - 48 == n % 10);
        assert(digits_value(d) == digits_value(p) * 10 + n % 10);
        assert((n / 10) * 10 + n % 10 == n) by (nonlinear_arith);
        assert forall|i: int| 0 <= i < d.len() implies '0' <= #[trigger] d[i] <= '9' by {
            if i < p.len() {
                assert(d[i] == p[i]);
            }
        }
        assert(d[0] == p[0]);
    } else {
        let d = decimal(n);
        assert(d.drop_last() =~= Seq::<char>::empty());
        assert(digits_value(d.drop_last()) == 0);
        assert(d.last() as int - 48 == n);
    }
}

fn digit_str(d: usize) -> (s: &'static str)
    requires
        d < 10,
    ensures
        s@ == seq![digit_char(d as nat)],
{
    proof {
        reveal_strlit("0");
        reveal_strlit("1");
        reveal_strlit("2");
        reveal_strlit("3");
        reveal_strlit("4");
        reveal_strlit("5");
        reveal_strlit("6");
        reveal_strlit("7");
        reveal_strlit("8");
        reveal_strlit("9");
    }
    match d {
        0 => "0",
        1 => "1",
        2 => "2",
        3 => "3",
        4 => "4",
        5 => "5",
        6 => "6",
        7 => "7",
        8 => "8",
        _ => "9",
    }
}

/// Appends the decimal text of `n` to `out`.
pub fn push_decimal(out: &mut String, n: usize)
    ensures
        final(out)@ == old(out)@ + decimal(n as nat),
    decreases n,
{
    if n < 10 {
        out.append(digit_str(n));
    } else {
        push_decimal(out, n / 10);
        out.append(digit_str(n % 10));
        assert(decimal(n as nat) == decimal((n / 10) as nat).push(digit_char((n % 10) as nat)));
    }
}

} // verus!
