use vstd::prelude::*;

verus! {

/// Every way in which parsing a buffer can fail.
#[derive(Debug, PartialEq, Eq, Clone, Copy)]
pub enum Error {
    /// Reserved for places that need a known identifier and meet an unknown one;
    /// the parsers of this crate keep unknown records instead of failing.
    UnknownChunkID([u8; 4]),
    /// A tag, a length field or a payload runs past the end of the available bytes.
    TruncatedChunk,
    /// The payload of the RIFF chunk does not start with `WAVE`.
    NoWaveTagFound,
    /// The buffer does not start with a RIFF chunk.
    NoRiffChunkFound,
    /// There is not exactly one `data` chunk.
    NoDataChunkFound,
    /// There is not exactly one `fmt ` chunk.
    NoFmtChunkFound,
    /// The bit depth is not 8, 16 or 24.
    UnsupportedBitDepth(u16),
    /// The audio format field is not 1 (linear PCM).
    UnsupportedFormat(u16),
}

} // verus!
