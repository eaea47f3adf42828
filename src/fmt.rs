//! The `fmt ` record: sample rate, channel count and bit depth.
use vstd::prelude::*;

use crate::chunk::{Chunk, ChunkTag};
use crate::error::Error;
use crate::le::{
    le_u16_at, le_u32_at, lemma_u16_bytes, lemma_u32_bytes, push_u16, push_u32, read_u16, read_u32,
    u16_bytes, u32_bytes,
};

verus! {

/// The format of a WAVE file's samples.
#[derive(Debug, Clone, Copy, PartialEq, Eq, Structural)]
pub struct Fmt {
    /// sample rate, typical values are `44_100`, `48_000` or `96_000`
    pub sample_rate: u32,
    /// number of audio channels in the sample data, channels are interleaved
    pub num_channels: u16,
    /// bit depth for each sample, typical values are `16` or `24`
    pub bit_depth: u16,
}

/// The byte rate field: bytes of sample data per second, kept to the field's 32 bits.
pub open spec fn byte_rate(f: Fmt) -> int {
    (f.sample_rate * f.bit_depth * f.num_channels / 8) % 0x1_0000_0000
}

/// The block align field: bytes per frame of all channels, kept to the field's 16 bits.
pub open spec fn block_align(f: Fmt) -> int {
    (f.num_channels * f.bit_depth / 8) % 0x1_0000
}

/// What a `fmt ` payload decodes to.
///
/// The audio format must be 1 (linear PCM); byte rate and block align are not read.
pub open spec fn decode_fmt(p: Seq<u8>) -> Result<Fmt, Error> {
    if p.len() < 2 {
        Err(Error::TruncatedChunk)
    } else if le_u16_at(p, 0) != 1 {
        Err(Error::UnsupportedFormat(le_u16_at(p, 0) as u16))
    } else if p.len() < 16 {
        Err(Error::TruncatedChunk)
    } else {
        Ok(
            Fmt {
                sample_rate: le_u32_at(p, 4) as u32,
                num_channels: le_u16_at(p, 2) as u16,
                bit_depth: le_u16_at(p, 14) as u16,
            },
        )
    }
}

/// The 16-byte `fmt ` payload of `f`, with byte rate and block align computed from it.
#[verifier::opaque]
pub open spec fn encode_fmt(f: Fmt) -> Seq<u8> {
    u16_bytes(1) + u16_bytes(f.num_channels as int) + u32_bytes(f.sample_rate as int) + u32_bytes(
        byte_rate(f),
    ) + u16_bytes(block_align(f)) + u16_bytes(f.bit_depth as int)
}

/// An encoded format takes sixteen bytes.
pub proof fn lemma_encode_fmt_len(f: Fmt)
    ensures
        encode_fmt(f).len() == 16,
{
    reveal(encode_fmt);
}

/// Decoding an encoded format gives the format back.
pub proof fn lemma_fmt_round_trip(f: Fmt)
    ensures
        decode_fmt(encode_fmt(f)) == Ok::<Fmt, Error>(f),
{
    reveal(encode_fmt);
    let p = encode_fmt(f);
    lemma_u16_bytes(1);
    lemma_u16_bytes(f.num_channels as int);
    lemma_u32_bytes(f.sample_rate as int);
    lemma_u16_bytes(f.bit_depth as int);
    assert(p.subrange(0, 2) == u16_bytes(1));
    assert(le_u16_at(p, 0) == le_u16_at(u16_bytes(1), 0));
    assert(le_u16_at(p, 2) == le_u16_at(u16_bytes(f.num_channels as int), 0));
    assert(le_u32_at(p, 4) == le_u32_at(u32_bytes(f.sample_rate as int), 0));
    assert(le_u16_at(p, 14) == le_u16_at(u16_bytes(f.bit_depth as int), 0));
}

impl Fmt {
    /// Decodes a `fmt ` payload.
    pub fn from_bytes(bytes: &[u8]) -> (r: Result<Self, Error>)
        ensures
            r == decode_fmt(bytes@),
    {
        if bytes.len() < 2 {
            return Err(Error::TruncatedChunk);
        }
        let format = read_u16(bytes, 0);
        if format != 1 {
            return Err(Error::UnsupportedFormat(format));
        }
        if bytes.len() < 16 {
            return Err(Error::TruncatedChunk);
        }
        let num_channels = read_u16(bytes, 2);
        let sample_rate = read_u32(bytes, 4);
        let bit_depth = read_u16(bytes, 14);
        Ok(Fmt { sample_rate, num_channels, bit_depth })
    }

    /// Decodes the payload of a `fmt ` chunk.
    pub fn from_chunk(chunk: &Chunk) -> (r: Result<Self, Error>)
        ensures
            r == decode_fmt(chunk.bytes@),
    {
        Fmt::from_bytes(chunk.bytes.as_slice())
    }

    /// The `fmt ` chunk of this format; byte rate and block align are computed, not stored.
    pub fn to_chunk(&self) -> (r: Chunk)
        ensures
            r.id == ChunkTag::Fmt,
            r.bytes@ == encode_fmt(*self),
    {
        reveal(encode_fmt);
        let channels = self.num_channels as u64;
        let depth = self.bit_depth as u64;
        let rate = self.sample_rate as u64;
        assert(channels * depth <= 0xffff * 0xffff) by (nonlinear_arith)
            requires
                channels <= 0xffff,
                depth <= 0xffff,
        ;
        let frame_bits = channels * depth;
        assert(rate * frame_bits <= 0xffff_ffff * (0xffff * 0xffff)) by (nonlinear_arith)
            requires
                rate <= 0xffff_ffff,
                frame_bits <= 0xffff * 0xffff,
        ;
        assert(rate * frame_bits == rate * depth * channels) by (nonlinear_arith)
            requires
                frame_bits == channels * depth,
        ;
        let per_second = rate * frame_bits / 8;
        let align = frame_bits / 8;
        let mut bytes: Vec<u8> = Vec::new();
        push_u16(&mut bytes, 1);
        push_u16(&mut bytes, self.num_channels);
        push_u32(&mut bytes, self.sample_rate);
        push_u32(&mut bytes, (per_second % 0x1_0000_0000) as u32);
        push_u16(&mut bytes, (align % 0x1_0000) as u16);
        push_u16(&mut bytes, self.bit_depth);
        Chunk { id: ChunkTag::Fmt, bytes }
    }
}

} // verus!
