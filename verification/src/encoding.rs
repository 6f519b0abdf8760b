//! The byte layout shared by the two cursors: a number of `width` bytes is
//! its `width` base-256 digits, most significant first.

use vstd::prelude::*;

verus! {

/// The number of values that `width` bytes can hold: 256 to the power `width`.
pub open spec fn pow256(width: nat) -> nat
    decreases width,
{
    if width == 0 {
        1
    } else {
        256 * pow256((width - 1) as nat)
    }
}

/// The `width` low-order base-256 digits of `v`, most significant digit first.
pub open spec fn be_bytes(v: nat, width: nat) -> Seq<u8>
    decreases width,
{
    if width == 0 {
        Seq::empty()
    } else {
        be_bytes(v / 256, (width - 1) as nat).push((v % 256) as u8)
    }
}

/// The number whose base-256 digits, most significant digit first, are `bytes`.
pub open spec fn be_value(bytes: Seq<u8>) -> nat
    decreases bytes.len(),
{
    if bytes.len() == 0 {
        0
    } else {
        be_value(bytes.drop_last()) * 256 + bytes.last() as nat
    }
}

/// An encoding has exactly as many bytes as were asked for.
pub proof fn lemma_be_bytes_len(v: nat, width: nat)
    ensures
        be_bytes(v, width).len() == width,
    decreases width,
{
    if width > 0 {
        lemma_be_bytes_len(v / 256, (width - 1) as nat);
    }
}

/// A power of 256 is positive.
pub proof fn lemma_pow256_positive(width: nat)
    ensures
        pow256(width) > 0,
    decreases width,
{
    if width > 0 {
        lemma_pow256_positive((width - 1) as nat);
    }
}

/// Byte `i` of an encoding is the base-256 digit of weight `width - 1 - i`:
/// the most significant digit comes first, the least significant last.
pub proof fn lemma_be_bytes_index(v: nat, width: nat, i: int)
    requires
        0 <= i < width,
    ensures
        be_bytes(v, width).len() == width,
        be_bytes(v, width)[i] == (v / pow256((width - 1 - i) as nat)) % 256,
    decreases width,
{
    lemma_be_bytes_len(v / 256, (width - 1) as nat);
    let weight = pow256((width - 1 - i) as nat);
    if i < width - 1 {
        let rest = pow256((width - 2 - i) as nat);
        lemma_be_bytes_index(v / 256, (width - 1) as nat, i);
        lemma_pow256_positive((width - 2 - i) as nat);
        vstd::arithmetic::div_mod::lemma_div_denominator(v as int, 256, rest as int);
        assert(weight == 256 * rest);
    } else {
        assert(v / weight == v) by (nonlinear_arith)
            requires
                weight == 1,
        ;
    }
}

/// Decoding inverts encoding for every value that fits in `width` bytes.
pub proof fn lemma_decode_encode(v: nat, width: nat)
    requires
        v < pow256(width),
    ensures
        be_value(be_bytes(v, width)) == v,
    decreases width,
{
    if width > 0 {
        let shorter = be_bytes(v / 256, (width - 1) as nat);
        lemma_be_bytes_len(v / 256, (width - 1) as nat);
        lemma_decode_encode(v / 256, (width - 1) as nat);
        assert(be_bytes(v, width).drop_last() =~= shorter);
    }
}

/// Encoding inverts decoding: a byte string is the encoding of its own value.
pub proof fn lemma_encode_decode(bytes: Seq<u8>)
    ensures
        be_value(bytes) < pow256(bytes.len()),
        be_bytes(be_value(bytes), bytes.len()) == bytes,
    decreases bytes.len(),
{
    if bytes.len() > 0 {
        lemma_encode_decode(bytes.drop_last());
        assert(bytes.drop_last().push(bytes.last()) =~= bytes);
    }
}

/// Shifting a byte left by eight bits multiplies it by 256.
pub proof fn lemma_shift_byte_u16(b: u16)
    requires
        b <= 0xFF,
    ensures
        b << 8 == b * 0x100,
{
    assert(b <= 0xFF ==> b << 8 == b * 0x100) by (bit_vector);
}

/// Shifting a byte left by whole bytes multiplies it by a power of 256.
pub proof fn lemma_shift_byte_u32(b: u32)
    requires
        b <= 0xFF,
    ensures
        b << 8 == b * 0x100,
        b << 16 == b * 0x1_0000,
        b << 24 == b * 0x100_0000,
{
    assert(b <= 0xFF ==> b << 8 == b * 0x100) by (bit_vector);
    assert(b <= 0xFF ==> b << 16 == b * 0x1_0000) by (bit_vector);
    assert(b <= 0xFF ==> b << 24 == b * 0x100_0000) by (bit_vector);
}

/// Shifting a byte left by whole bytes multiplies it by a power of 256.
pub proof fn lemma_shift_byte_u64(b: u64)
    requires
        b <= 0xFF,
    ensures
        b << 8 == b * 0x100,
        b << 16 == b * 0x1_0000,
        b << 24 == b * 0x100_0000,
        b << 32 == b * 0x1_0000_0000,
        b << 40 == b * 0x100_0000_0000,
        b << 48 == b * 0x1_0000_0000_0000,
        b << 56 == b * 0x100_0000_0000_0000,
{
    assert(b <= 0xFF ==> b << 8 == b * 0x100) by (bit_vector);
    assert(b <= 0xFF ==> b << 16 == b * 0x1_0000) by (bit_vector);
    assert(b <= 0xFF ==> b << 24 == b * 0x100_0000) by (bit_vector);
    assert(b <= 0xFF ==> b << 32 == b * 0x1_0000_0000) by (bit_vector);
    assert(b <= 0xFF ==> b << 40 == b * 0x100_0000_0000) by (bit_vector);
    assert(b <= 0xFF ==> b << 48 == b * 0x1_0000_0000_0000) by (bit_vector);
    assert(b <= 0xFF ==> b << 56 == b * 0x100_0000_0000_0000) by (bit_vector);
}

/// The two bytes of `x`, most significant first.
pub fn get_bytes_u16(x: u16) -> (buf: [u8; 2])
    ensures
        buf@ == be_bytes(x as nat, 2),
{
    let buf: [u8; 2] = [(x >> 8) as u8, (x & 0xFF) as u8];
    proof {
        assert(x & 0xFF == x % 256) by (bit_vector);
        assert(x >> 8 == x / 256) by (bit_vector);
        reveal_with_fuel(be_bytes, 3);
        assert(buf@ =~= be_bytes(x as nat, 2));
    }
    buf
}

/// The four bytes of `x`, most significant first.
pub fn get_bytes_u32(x: u32) -> (buf: [u8; 4])
    ensures
        buf@ == be_bytes(x as nat, 4),
{
    let buf: [u8; 4] = [
        ((x >> 24) & 0xFF) as u8,
        ((x >> 16) & 0xFF) as u8,
        ((x >> 8) & 0xFF) as u8,
        (x & 0xFF) as u8,
    ];
    proof {
        assert(x & 0xFF == x % 256) by (bit_vector);
        assert((x >> 8) & 0xFF == (x / 256) % 256) by (bit_vector);
        assert((x >> 16) & 0xFF == (x / 256 / 256) % 256) by (bit_vector);
        assert((x >> 24) & 0xFF == (x / 256 / 256 / 256) % 256) by (bit_vector);
        reveal_with_fuel(be_bytes, 5);
        assert(buf@ =~= be_bytes(x as nat, 4));
    }
    buf
}

/// The eight bytes of `x`, most significant first.
pub fn get_bytes_u64(x: u64) -> (buf: [u8; 8])
    ensures
        buf@ == be_bytes(x as nat, 8),
{
    let buf: [u8; 8] = [
        ((x >> 56) & 0xFF) as u8,
        ((x >> 48) & 0xFF) as u8,
        ((x >> 40) & 0xFF) as u8,
        ((x >> 32) & 0xFF) as u8,
        ((x >> 24) & 0xFF) as u8,
        ((x >> 16) & 0xFF) as u8,
        ((x >> 8) & 0xFF) as u8,
        (x & 0xFF) as u8,
    ];
    proof {
        assert(x & 0xFF == x % 256) by (bit_vector);
        assert((x >> 8) & 0xFF == (x / 256) % 256) by (bit_vector);
        assert((x >> 16) & 0xFF == (x / 256 / 256) % 256) by (bit_vector);
        assert((x >> 24) & 0xFF == (x / 256 / 256 / 256) % 256) by (bit_vector);
        assert((x >> 32) & 0xFF == (x / 256 / 256 / 256 / 256) % 256) by (bit_vector);
        assert((x >> 40) & 0xFF == (x / 256 / 256 / 256 / 256 / 256) % 256) by (bit_vector);
        assert((x >> 48) & 0xFF == (x / 256 / 256 / 256 / 256 / 256 / 256) % 256)
            by (bit_vector);
        assert((x >> 56) & 0xFF == (x / 256 / 256 / 256 / 256 / 256 / 256 / 256) % 256)
            by (bit_vector);
        reveal_with_fuel(be_bytes, 9);
        assert(buf@ =~= be_bytes(x as nat, 8));
    }
    buf
}

} // verus!
