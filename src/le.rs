//! Little-endian integers in byte sequences.
use vstd::prelude::*;

verus! {

/// The unsigned value of the two bytes of `s` at `at`, least significant first.
pub open spec fn le_u16_at(s: Seq<u8>, at: int) -> int {
    s[at] + 256 * s[at + 1]
}

/// The unsigned value of the four bytes of `s` at `at`, least significant first.
pub open spec fn le_u32_at(s: Seq<u8>, at: int) -> int {
    s[at] + 256 * s[at + 1] + 65536 * s[at + 2] + 16777216 * s[at + 3]
}

/// Byte `k` (0 is the least significant) of the two's-complement form of `v`.
pub open spec fn byte_of(v: int, k: int) -> u8 {
    (if k == 0 {
        v % 256
    } else if k == 1 {
        v / 256 % 256
    } else if k == 2 {
        v / 65536 % 256
    } else {
        v / 16777216 % 256
    }) as u8
}

/// The two bytes that hold `v` in a 16-bit little-endian field.
pub open spec fn u16_bytes(v: int) -> Seq<u8> {
    seq![byte_of(v, 0), byte_of(v, 1)]
}

/// The four bytes that hold `v` in a 32-bit little-endian field.
pub open spec fn u32_bytes(v: int) -> Seq<u8> {
    seq![byte_of(v, 0), byte_of(v, 1), byte_of(v, 2), byte_of(v, 3)]
}

/// Reading back a 16-bit field gives the value written, when it fits.
pub proof fn lemma_u16_bytes(v: int)
    requires
        0 <= v < 0x1_0000,
    ensures
        le_u16_at(u16_bytes(v), 0) == v,
{
    assert(v % 256 + 256 * (v / 256 % 256) == v) by (nonlinear_arith)
        requires 0 <= v < 0x1_0000;
}

/// Reading back a 32-bit field gives the value written, when it fits.
pub proof fn lemma_u32_bytes(v: int)
    requires
        0 <= v < 0x1_0000_0000,
    ensures
        le_u32_at(u32_bytes(v), 0) == v,
{
    assert(v % 256 + 256 * (v / 256 % 256) + 65536 * (v / 65536 % 256) + 16777216 * (v
        / 16777216 % 256) == v) by (nonlinear_arith)
        requires 0 <= v < 0x1_0000_0000;
}

/// Reads the 16-bit little-endian field of `s` at `at`.
pub fn read_u16(s: &[u8], at: usize) -> (r: u16)
    requires
        at + 2 <= s@.len(),
    ensures
        r == le_u16_at(s@, at as int),
{
    s[at] as u16 + (s[at + 1] as u16) * 256
}

/// Reads the 32-bit little-endian field of `s` at `at`.
pub fn read_u32(s: &[u8], at: usize) -> (r: u32)
    requires
        at + 4 <= s@.len(),
    ensures
        r == le_u32_at(s@, at as int),
{
    s[at] as u32 + (s[at + 1] as u32) * 256 + (s[at + 2] as u32) * 65536 + (s[at + 3] as u32)
        * 16777216
}

/// Appends `v` as a 16-bit little-endian field.
pub fn push_u16(out: &mut Vec<u8>, v: u16)
    ensures
        final(out)@ == old(out)@ + u16_bytes(v as int),
{
    out.push((v % 256) as u8);
    out.push((v / 256) as u8);
    assert(out@ =~= old(out)@ + u16_bytes(v as int));
}

/// Appends `v` as a 32-bit little-endian field.
pub fn push_u32(out: &mut Vec<u8>, v: u32)
    ensures
        final(out)@ == old(out)@ + u32_bytes(v as int),
{
    out.push((v % 256) as u8);
    out.push((v / 256 % 256) as u8);
    out.push((v / 65536 % 256) as u8);
    out.push((v / 16777216) as u8);
    assert(out@ =~= old(out)@ + u32_bytes(v as int));
}

} // verus!
