//! The `data` record: PCM samples of 8, 16 or 24 bits.
use vstd::prelude::*;

use crate::chunk::{Chunk, ChunkTag};
use crate::error::Error;
use crate::fmt::Fmt;
use crate::le::byte_of;

verus! {

/// Enum to hold samples for different bit depths
#[derive(Debug, PartialEq)]
pub enum Data {
    /// 8 bit audio
    BitDepth8(Vec<u8>),
    /// 16 bit audio
    BitDepth16(Vec<i16>),
    /// 24 bit audio, each sample sign-extended to 32 bits
    BitDepth24(Vec<i32>),
}

/// The samples of a [`Data`] as plain sequences.
pub enum Samples {
    /// Unsigned 8-bit samples.
    BitDepth8(Seq<u8>),
    /// Signed 16-bit samples.
    BitDepth16(Seq<i16>),
    /// 24-bit samples, sign-extended to 32 bits.
    BitDepth24(Seq<i32>),
}

impl View for Data {
    type V = Samples;

    open spec fn view(&self) -> Samples {
        match self {
            Data::BitDepth8(s) => Samples::BitDepth8(s@),
            Data::BitDepth16(s) => Samples::BitDepth16(s@),
            Data::BitDepth24(s) => Samples::BitDepth24(s@),
        }
    }
}

impl Samples {
    /// The number of samples, all channels counted.
    pub open spec fn len(self) -> nat {
        match self {
            Samples::BitDepth8(s) => s.len(),
            Samples::BitDepth16(s) => s.len(),
            Samples::BitDepth24(s) => s.len(),
        }
    }

    /// The bit depth that the variant stands for.
    pub open spec fn bit_depth(self) -> u16 {
        match self {
            Samples::BitDepth8(_) => 8,
            Samples::BitDepth16(_) => 16,
            Samples::BitDepth24(_) => 24,
        }
    }

    /// The number of bytes that the samples take in a `data` payload.
    pub open spec fn payload_len(self) -> int {
        match self {
            Samples::BitDepth8(s) => s.len() as int,
            Samples::BitDepth16(s) => 2 * s.len() as int,
            Samples::BitDepth24(s) => 3 * s.len() as int,
        }
    }

    /// Every 24-bit sample lies in the range that 24 bits can hold.
    pub open spec fn in_range(self) -> bool {
        match self {
            Samples::BitDepth24(s) => forall|i: int|
                0 <= i < s.len() ==> -0x80_0000 <= #[trigger] s[i] < 0x80_0000,
            _ => true,
        }
    }
}

/// The signed 16-bit sample of the two little-endian bytes at sample index `i`.
pub open spec fn sample16_at(p: Seq<u8>, i: int) -> i16 {
    let u = p[2 * i] + 256 * p[2 * i + 1];
    (if u >= 0x8000 {
        u - 0x1_0000
    } else {
        u
    }) as i16
}

/// The 24-bit sample of the three little-endian bytes at sample index `i`, sign-extended:
/// the top bit of the third byte gives the sign.
pub open spec fn sample24_at(p: Seq<u8>, i: int) -> i32 {
    let u = p[3 * i] + 256 * p[3 * i + 1] + 65536 * p[3 * i + 2];
    (if p[3 * i + 2] >= 0x80 {
        u - 0x100_0000
    } else {
        u
    }) as i32
}

/// What a `data` payload decodes to at the given bit depth; trailing bytes that do not
/// make a whole sample are dropped.
#[verifier::opaque]
pub open spec fn decode_samples(bit_depth: u16, p: Seq<u8>) -> Result<Samples, Error> {
    if bit_depth == 8 {
        Ok(Samples::BitDepth8(p))
    } else if bit_depth == 16 {
        Ok(Samples::BitDepth16(Seq::new(p.len() / 2, |i: int| sample16_at(p, i))))
    } else if bit_depth == 24 {
        Ok(Samples::BitDepth24(Seq::new(p.len() / 3, |i: int| sample24_at(p, i))))
    } else {
        Err(Error::UnsupportedBitDepth(bit_depth))
    }
}

/// The `data` payload of the samples: bytes as they are, 16-bit samples as two
/// little-endian bytes, 24-bit samples as the three low bytes of their two's complement.
#[verifier::opaque]
pub open spec fn encode_samples(d: Samples) -> Seq<u8> {
    match d {
        Samples::BitDepth8(s) => s,
        Samples::BitDepth16(s) => Seq::new(2 * s.len(), |j: int| byte_of(s[j / 2] as int, j % 2)),
        Samples::BitDepth24(s) => Seq::new(3 * s.len(), |j: int| byte_of(s[j / 3] as int, j % 3)),
    }
}

/// The encoded samples take [`Samples::payload_len`] bytes.
pub proof fn lemma_encode_samples_len(d: Samples)
    ensures
        encode_samples(d).len() == d.payload_len(),
{
    reveal(encode_samples);
}

/// The view of a decoding result.
pub open spec fn samples_result(r: Result<Data, Error>) -> Result<Samples, Error> {
    match r {
        Ok(d) => Ok(d@),
        Err(e) => Err(e),
    }
}

/// A 16-bit sample read back from its two bytes is the sample.
proof fn lemma_sample16(v: int)
    requires
        -0x8000 <= v < 0x8000,
    ensures
        ({
            let u = byte_of(v, 0) + 256 * byte_of(v, 1);
            (if u >= 0x8000 {
                u - 0x1_0000
            } else {
                u
            }) == v
        }),
{
    let b0 = v % 256;
    let b1 = v / 256 % 256;
    assert(b0 + 256 * b1 == (if v < 0 {
        v + 0x1_0000
    } else {
        v
    })) by (nonlinear_arith)
        requires
            -0x8000 <= v < 0x8000,
            b0 == v % 256,
            b1 == v / 256 % 256,
    ;
}

/// A 24-bit sample read back from its three bytes is the sample, when it fits in 24 bits.
proof fn lemma_sample24(v: int)
    requires
        -0x80_0000 <= v < 0x80_0000,
    ensures
        ({
            let u = byte_of(v, 0) + 256 * byte_of(v, 1) + 65536 * byte_of(v, 2);
            (if byte_of(v, 2) >= 0x80 {
                u - 0x100_0000
            } else {
                u
            }) == v
        }),
{
    let b0 = v % 256;
    let b1 = v / 256 % 256;
    let b2 = v / 65536 % 256;
    assert(b0 + 256 * b1 + 65536 * b2 == (if v < 0 {
        v + 0x100_0000
    } else {
        v
    }) && (b2 >= 0x80 <==> v < 0)) by (nonlinear_arith)
        requires
            -0x80_0000 <= v < 0x80_0000,
            b0 == v % 256,
            b1 == v / 256 % 256,
            b2 == v / 65536 % 256,
    ;
}

/// Decoding encoded samples at their own bit depth gives them back.
pub proof fn lemma_samples_round_trip(fmt: Fmt, d: Samples)
    requires
        fmt.bit_depth == d.bit_depth(),
        d.in_range(),
    ensures
        decode_samples(fmt.bit_depth, encode_samples(d)) == Ok::<Samples, Error>(d),
{
    reveal(decode_samples);
    reveal(encode_samples);
    let p = encode_samples(d);
    match d {
        Samples::BitDepth8(s) => {},
        Samples::BitDepth16(s) => {
            assert forall|i: int| 0 <= i < s.len() implies sample16_at(p, i) == s[i] by {
                assert((2 * i) / 2 == i && (2 * i) % 2 == 0);
                assert((2 * i + 1) / 2 == i && (2 * i + 1) % 2 == 1);
                lemma_sample16(s[i] as int);
            }
            assert(Seq::new(p.len() / 2, |i: int| sample16_at(p, i)) =~= s);
        },
        Samples::BitDepth24(s) => {
            assert forall|i: int| 0 <= i < s.len() implies sample24_at(p, i) == s[i] by {
                assert((3 * i) / 3 == i && (3 * i) % 3 == 0);
                assert((3 * i + 1) / 3 == i && (3 * i + 1) % 3 == 1);
                assert((3 * i + 2) / 3 == i && (3 * i + 2) % 3 == 2);
                lemma_sample24(s[i] as int);
            }
            assert(Seq::new(p.len() / 3, |i: int| sample24_at(p, i)) =~= s);
        },
    }
}

impl Data {
    /// Decodes a `data` payload at the bit depth of `fmt`.
    pub fn from_bytes(fmt: &Fmt, bytes: &[u8]) -> (r: Result<Self, Error>)
        ensures
            samples_result(r) == decode_samples(fmt.bit_depth, bytes@),
    {
        reveal(decode_samples);
        let n = bytes.len();
        if fmt.bit_depth == 8 {
            let mut s: Vec<u8> = Vec::new();
            let mut i: usize = 0;
            while i < n
                invariant
                    n == bytes@.len(),
                    i <= n,
                    s@ == bytes@.subrange(0, i as int),
                decreases n - i,
            {
                s.push(bytes[i]);
                i = i + 1;
                assert(s@ =~= bytes@.subrange(0, i as int));
            }
            assert(s@ =~= bytes@);
            Ok(Data::BitDepth8(s))
        } else if fmt.bit_depth == 16 {
            let mut s: Vec<i16> = Vec::new();
            let mut i: usize = 0;
            while i < n / 2
                invariant
                    n == bytes@.len(),
                    i <= n / 2,
                    s@ == Seq::new(i as nat, |k: int| sample16_at(bytes@, k)),
                decreases n / 2 - i,
            {
                let u = bytes[2 * i] as u16 + bytes[2 * i + 1] as u16 * 256;
                let v: i16 = if u >= 0x8000 {
                    (u as i32 - 0x1_0000) as i16
                } else {
                    u as i16
                };
                s.push(v);
                i = i + 1;
                assert(s@ =~= Seq::new(i as nat, |k: int| sample16_at(bytes@, k)));
            }
            Ok(Data::BitDepth16(s))
        } else if fmt.bit_depth == 24 {
            let mut s: Vec<i32> = Vec::new();
            let mut i: usize = 0;
            while i < n / 3
                invariant
                    n == bytes@.len(),
                    i <= n / 3,
                    s@ == Seq::new(i as nat, |k: int| sample24_at(bytes@, k)),
                decreases n / 3 - i,
            {
                let b2 = bytes[3 * i + 2];
                let u = bytes[3 * i] as i32 + bytes[3 * i + 1] as i32 * 256 + b2 as i32 * 65536;
                let v: i32 = if b2 >= 0x80 {
                    u - 0x100_0000
                } else {
                    u
                };
                s.push(v);
                i = i + 1;
                assert(s@ =~= Seq::new(i as nat, |k: int| sample24_at(bytes@, k)));
            }
            Ok(Data::BitDepth24(s))
        } else {
            Err(Error::UnsupportedBitDepth(fmt.bit_depth))
        }
    }

    /// Decodes the payload of a `data` chunk at the bit depth of `fmt`.
    pub fn from_chunk(fmt: &Fmt, chunk: &Chunk) -> (r: Result<Self, Error>)
        ensures
            samples_result(r) == decode_samples(fmt.bit_depth, chunk.bytes@),
    {
        Data::from_bytes(fmt, chunk.bytes.as_slice())
    }

    /// The `data` chunk that holds these samples.
    ///
    /// A 24-bit sample outside the 24-bit range keeps only its three low bytes.
    pub fn to_chunk(&self) -> (r: Chunk)
        ensures
            r.id == ChunkTag::Data,
            r.bytes@ == encode_samples(self@),
    {
        reveal(encode_samples);
        let mut bytes: Vec<u8> = Vec::new();
        match self {
            Data::BitDepth8(s) => {
                let mut i: usize = 0;
                while i < s.len()
                    invariant
                        i <= s@.len(),
                        bytes@ == s@.subrange(0, i as int),
                    decreases s@.len() - i,
                {
                    bytes.push(s[i]);
                    i = i + 1;
                    assert(bytes@ =~= s@.subrange(0, i as int));
                }
                assert(bytes@ =~= s@);
            },
            Data::BitDepth16(s) => {
                let mut i: usize = 0;
                while i < s.len()
                    invariant
                        i <= s@.len(),
                        bytes@ == Seq::new(2 * i as nat, |j: int| byte_of(s@[j / 2] as int, j % 2)),
                    decreases s@.len() - i,
                {
                    let v = s[i];
                    let u: u16 = if v < 0 {
                        (v as i32 + 0x1_0000) as u16
                    } else {
                        v as u16
                    };
                    proof {
                        lemma_low_bytes(v as int, u as int, 0x1_0000);
                    }
                    bytes.push((u % 256) as u8);
                    bytes.push((u / 256) as u8);
                    i = i + 1;
                    assert(bytes@ =~= Seq::new(
                        2 * i as nat,
                        |j: int| byte_of(s@[j / 2] as int, j % 2),
                    ));
                }
            },
            Data::BitDepth24(s) => {
                let mut i: usize = 0;
                while i < s.len()
                    invariant
                        i <= s@.len(),
                        bytes@ == Seq::new(3 * i as nat, |j: int| byte_of(s@[j / 3] as int, j % 3)),
                    decreases s@.len() - i,
                {
                    let v = s[i];
                    let u: u32 = if v < 0 {
                        (v as i64 + 0x1_0000_0000) as u32
                    } else {
                        v as u32
                    };
                    proof {
                        lemma_low_bytes(v as int, u as int, 0x1_0000_0000);
                    }
                    bytes.push((u % 256) as u8);
                    bytes.push((u / 256 % 256) as u8);
                    bytes.push((u / 65536 % 256) as u8);
                    i = i + 1;
                    assert(bytes@ =~= Seq::new(
                        3 * i as nat,
                        |j: int| byte_of(s@[j / 3] as int, j % 3),
                    ));
                }
            },
        }
        Chunk { id: ChunkTag::Data, bytes }
    }

    /// Get the length of the internal sample Vec.
    pub fn len(&self) -> (r: usize)
        ensures
            r == self@.len(),
    {
        match self {
            Data::BitDepth8(s) => s.len(),
            Data::BitDepth16(s) => s.len(),
            Data::BitDepth24(s) => s.len(),
        }
    }
}

/// Adding 2^16 leaves the two low bytes as they are, and adding 2^32 the three low bytes.
proof fn lemma_low_bytes(v: int, u: int, m: int)
    requires
        m == 0x1_0000 || m == 0x1_0000_0000,
        u == v || u == v + m,
    ensures
        byte_of(u, 0) == byte_of(v, 0),
        byte_of(u, 1) == byte_of(v, 1),
        m == 0x1_0000_0000 ==> byte_of(u, 2) == byte_of(v, 2),
{
    if u == v + m {
        assert(u % 256 == v % 256) by (nonlinear_arith)
            requires
                u == v + m,
                m == 0x1_0000 || m == 0x1_0000_0000,
        ;
        assert(u / 256 % 256 == v / 256 % 256) by (nonlinear_arith)
            requires
                u == v + m,
                m == 0x1_0000 || m == 0x1_0000_0000,
        ;
        if m == 0x1_0000_0000 {
            assert(u / 65536 % 256 == v / 65536 % 256) by (nonlinear_arith)
                requires
                    u == v + m,
                    m == 0x1_0000_0000,
            ;
        }
    }
}

} // verus!
