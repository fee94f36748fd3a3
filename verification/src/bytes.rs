//! Little-endian field access on byte buffers, shared by every on-disk and
//! in-memory format of the kernel.
use vstd::prelude::*;

verus! {

/// The value of the two bytes at `off`, least significant first.
pub open spec fn le16(s: Seq<u8>, off: int) -> int {
    s[off] + 256 * s[off + 1]
}

/// The value of the four bytes at `off`, least significant first.
pub open spec fn le32(s: Seq<u8>, off: int) -> int {
    le16(s, off) + 65536 * le16(s, off + 2)
}

/// The value of the eight bytes at `off`, least significant first.
pub open spec fn le64(s: Seq<u8>, off: int) -> int {
    le32(s, off) + 4294967296 * le32(s, off + 4)
}

/// Byte `k` (counting from the least significant) of `v`.
pub open spec fn byte_of(v: int, k: nat) -> u8 {
    ((v / pow256(k)) % 256) as u8
}

/// `256` to the power `k`.
pub open spec fn pow256(k: nat) -> int
    decreases k,
{
    if k == 0 { 1 } else { 256 * pow256((k - 1) as nat) }
}

/// `s` with the `n` little-endian bytes of `v` stored at `off`.
pub open spec fn put_le(s: Seq<u8>, off: int, v: int, n: nat) -> Seq<u8> {
    Seq::new(s.len(), |i: int| if off <= i < off + n { byte_of(v, (i - off) as nat) } else { s[i] })
}

/// `x` rounded up to the next multiple of `align`.
pub open spec fn spec_align_up(x: int, align: int) -> int {
    if x % align == 0 { x } else { x + (align - x % align) }
}

/// Reads a little-endian `u16`; `None` when the field runs past the end.
pub fn read_u16(bytes: &[u8], offset: usize) -> (r: Option<u16>)
    ensures
        r is Some <==> offset + 2 <= bytes@.len(),
        r matches Some(v) ==> v == le16(bytes@, offset as int),
{
    if offset > bytes.len() || bytes.len() - offset < 2 {
        return None;
    }
    let lo = bytes[offset] as u16;
    let hi = bytes[offset + 1] as u16;
    Some(lo + hi * 256)
}

/// Reads a little-endian `u32`; `None` when the field runs past the end.
pub fn read_u32(bytes: &[u8], offset: usize) -> (r: Option<u32>)
    ensures
        r is Some <==> offset + 4 <= bytes@.len(),
        r matches Some(v) ==> v == le32(bytes@, offset as int),
{
    if offset > bytes.len() || bytes.len() - offset < 4 {
        return None;
    }
    let b0 = bytes[offset] as u32;
    let b1 = bytes[offset + 1] as u32;
    let b2 = bytes[offset + 2] as u32;
    let b3 = bytes[offset + 3] as u32;
    Some(b0 + b1 * 256 + b2 * 65536 + b3 * 16777216)
}

/// Reads a little-endian `u64`; `None` when the field runs past the end.
pub fn read_u64(bytes: &[u8], offset: usize) -> (r: Option<u64>)
    ensures
        r is Some <==> offset + 8 <= bytes@.len(),
        r matches Some(v) ==> v == le64(bytes@, offset as int),
{
    if offset > bytes.len() || bytes.len() - offset < 8 {
        return None;
    }
    let lo = read_u32(bytes, offset).unwrap() as u64;
    let hi = read_u32(bytes, offset + 4).unwrap() as u64;
    Some(lo + hi * 4294967296)
}

proof fn lemma_pow256_small()
    ensures
        pow256(0) == 1,
        pow256(1) == 256,
        pow256(2) == 65536,
        pow256(3) == 16777216,
        pow256(4) == 4294967296,
        pow256(5) == 1099511627776,
        pow256(6) == 281474976710656,
        pow256(7) == 72057594037927936,
{
    reveal_with_fuel(pow256, 8);
}

/// Stores `value` little-endian at `offset`.
pub fn write_u16(bytes: &mut Vec<u8>, offset: usize, value: u16)
    requires
        offset + 2 <= old(bytes)@.len(),
    ensures
        final(bytes)@ == put_le(old(bytes)@, offset as int, value as int, 2),
{
    proof { lemma_pow256_small(); }
    let _len = bytes.len();
    bytes.set(offset, (value % 256) as u8);
    bytes.set(offset + 1, (value / 256) as u8);
    assert(final(bytes)@ =~= put_le(old(bytes)@, offset as int, value as int, 2));
}

/// Stores `value` little-endian at `offset`.
pub fn write_u32(bytes: &mut Vec<u8>, offset: usize, value: u32)
    requires
        offset + 4 <= old(bytes)@.len(),
    ensures
        final(bytes)@ == put_le(old(bytes)@, offset as int, value as int, 4),
{
    proof { lemma_pow256_small(); }
    let _len = bytes.len();
    bytes.set(offset, (value % 256) as u8);
    bytes.set(offset + 1, ((value / 256) % 256) as u8);
    bytes.set(offset + 2, ((value / 65536) % 256) as u8);
    bytes.set(offset + 3, (value / 16777216) as u8);
    assert(final(bytes)@ =~= put_le(old(bytes)@, offset as int, value as int, 4));
}

/// Stores `value` little-endian at `offset`.
pub fn write_u64(bytes: &mut Vec<u8>, offset: usize, value: u64)
    requires
        offset + 8 <= old(bytes)@.len(),
    ensures
        final(bytes)@ == put_le(old(bytes)@, offset as int, value as int, 8),
{
    proof { lemma_pow256_small(); }
    let _len = bytes.len();
    let mut k: usize = 0;
    let mut rest: u64 = value;
    while k < 8
        invariant
            0 <= k <= 8,
            offset + 8 <= bytes@.len(),
            bytes@.len() == old(bytes)@.len(),
            bytes@.len() == _len,
            rest as int == value as int / pow256(k as nat),
            forall|i: int| 0 <= i < bytes@.len() ==> bytes@[i] == (
                if offset <= i < offset + k { byte_of(value as int, (i - offset) as nat) }
                else { old(bytes)@[i] }),
        decreases 8 - k,
    {
        proof {
            assert(pow256((k + 1) as nat) == 256 * pow256(k as nat));
            assert(pow256(k as nat) > 0) by { lemma_pow256_pos(k as nat); }
            vstd::arithmetic::div_mod::lemma_div_denominator(value as int, pow256(k as nat), 256);
        }
        bytes.set(offset + k, (rest % 256) as u8);
        rest = rest / 256;
        k = k + 1;
    }
    assert(final(bytes)@ =~= put_le(old(bytes)@, offset as int, value as int, 8));
}

proof fn lemma_pow256_pos(k: nat)
    ensures pow256(k) > 0,
    decreases k,
{
    if k > 0 { lemma_pow256_pos((k - 1) as nat); }
}

/// `value` rounded up to a multiple of the power of two `align`.
pub fn align_up(value: usize, align: usize) -> (r: usize)
    requires
        align > 0,
        value + align - 1 <= usize::MAX,
    ensures
        r == spec_align_up(value as int, align as int),
{
    let rem = value % align;
    if rem == 0 { value } else { value + (align - rem) }
}

/// A little-endian field written at `off` reads back as the value written.
pub proof fn lemma_le16_roundtrip(s: Seq<u8>, off: int, v: u16)
    requires
        0 <= off,
        off + 2 <= s.len(),
    ensures
        le16(put_le(s, off, v as int, 2), off) == v,
{
    lemma_pow256_small();
}

/// A little-endian field written at `off` reads back as the value written.
pub proof fn lemma_le32_roundtrip(s: Seq<u8>, off: int, v: u32)
    requires
        0 <= off,
        off + 4 <= s.len(),
    ensures
        le32(put_le(s, off, v as int, 4), off) == v,
{
    lemma_pow256_small();
    let t = put_le(s, off, v as int, 4);
    let x = v as int;
    assert(t[off] == x % 256);
    assert(t[off + 1] == (x / 256) % 256);
    assert(t[off + 2] == (x / 65536) % 256);
    assert(t[off + 3] == (x / 16777216) % 256);
    assert(v % 256 + 256 * ((v / 256) % 256) + 65536 * ((v / 65536) % 256)
        + 16777216 * ((v / 16777216) % 256) == v) by (bit_vector);
}

/// A little-endian field written at `off` reads back as the value written.
pub proof fn lemma_le64_roundtrip(s: Seq<u8>, off: int, v: u64)
    requires
        0 <= off,
        off + 8 <= s.len(),
    ensures
        le64(put_le(s, off, v as int, 8), off) == v,
{
    lemma_pow256_small();
    let t = put_le(s, off, v as int, 8);
    let x = v as int;
    assert(t[off] == x % 256);
    assert(t[off + 1] == (x / 256) % 256);
    assert(t[off + 2] == (x / 65536) % 256);
    assert(t[off + 3] == (x / 16777216) % 256);
    assert(t[off + 4] == (x / 4294967296) % 256);
    assert(t[off + 5] == (x / 1099511627776) % 256);
    assert(t[off + 6] == (x / 281474976710656) % 256);
    assert(t[off + 7] == (x / 72057594037927936) % 256);
    assert(v % 256 + 256 * ((v / 256) % 256) + 65536 * ((v / 65536) % 256)
        + 16777216 * ((v / 16777216) % 256)
        + 4294967296 * ((v / 4294967296) % 256 + 256 * ((v / 1099511627776) % 256)
        + 65536 * ((v / 281474976710656) % 256) + 16777216 * ((v / 72057594037927936) % 256)) == v)
        by (bit_vector);
}

} // verus!
