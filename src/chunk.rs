//! RIFF records: a four-byte tag, a 32-bit little-endian length and a payload.
use vstd::prelude::*;
use vstd::slice::slice_subrange;
use vstd::slice::slice_to_vec;

use crate::error::Error;
use crate::le::{le_u32_at, lemma_u32_bytes, push_u32, read_u32, u32_bytes};

verus! {

/// The four-byte identifier in front of every RIFF record.
#[derive(Debug, Clone, Copy)]
pub enum ChunkTag {
    /// `RIFF`: the record that holds the whole file.
    Riff,
    /// `fmt `: sample rate, channel count and bit depth.
    Fmt,
    /// `data`: the interleaved samples.
    Data,
    /// `WAVE`: the form type right after the RIFF length field.
    Wave,
    /// `LIST`: a record that holds further records.
    List,
    /// `INFO`: the list type of metadata lists.
    Info,
    /// Any other identifier, kept as its raw bytes.
    Unknown([u8; 4]),
}

/// `RIFF`
pub open spec fn riff_code() -> Seq<u8> {
    seq![0x52u8, 0x49u8, 0x46u8, 0x46u8]
}

/// `fmt `
pub open spec fn fmt_code() -> Seq<u8> {
    seq![0x66u8, 0x6du8, 0x74u8, 0x20u8]
}

/// `data`
pub open spec fn data_code() -> Seq<u8> {
    seq![0x64u8, 0x61u8, 0x74u8, 0x61u8]
}

/// `WAVE`
pub open spec fn wave_code() -> Seq<u8> {
    seq![0x57u8, 0x41u8, 0x56u8, 0x45u8]
}

/// `LIST`
pub open spec fn list_code() -> Seq<u8> {
    seq![0x4cu8, 0x49u8, 0x53u8, 0x54u8]
}

/// `INFO`
pub open spec fn info_code() -> Seq<u8> {
    seq![0x49u8, 0x4eu8, 0x46u8, 0x4fu8]
}

/// The identifiers that have a variant of their own.
pub open spec fn is_named_code(c: Seq<u8>) -> bool {
    ||| c == riff_code()
    ||| c == fmt_code()
    ||| c == data_code()
    ||| c == wave_code()
    ||| c == list_code()
    ||| c == info_code()
}

impl ChunkTag {
    /// The four bytes of the tag as they stand in a file.
    pub open spec fn code(self) -> Seq<u8> {
        match self {
            ChunkTag::Riff => riff_code(),
            ChunkTag::Fmt => fmt_code(),
            ChunkTag::Data => data_code(),
            ChunkTag::Wave => wave_code(),
            ChunkTag::List => list_code(),
            ChunkTag::Info => info_code(),
            ChunkTag::Unknown(b) => b@,
        }
    }

    /// Every tag stands for four bytes.
    pub proof fn lemma_code_len(self)
        ensures
            self.code().len() == 4,
    {
    }

    /// A tag is canonical when a named identifier is held by its own variant.
    pub open spec fn is_canonical(self) -> bool {
        match self {
            ChunkTag::Unknown(b) => !is_named_code(b@),
            _ => true,
        }
    }

    /// Decodes four bytes into a tag.
    pub fn from_bytes(bytes: &[u8; 4]) -> (r: ChunkTag)
        ensures
            r.code() == bytes@,
            r.is_canonical(),
    {
        if same_code(bytes, [0x52, 0x49, 0x46, 0x46]) {
            ChunkTag::Riff
        } else if same_code(bytes, [0x66, 0x6d, 0x74, 0x20]) {
            ChunkTag::Fmt
        } else if same_code(bytes, [0x64, 0x61, 0x74, 0x61]) {
            ChunkTag::Data
        } else if same_code(bytes, [0x57, 0x41, 0x56, 0x45]) {
            ChunkTag::Wave
        } else if same_code(bytes, [0x4c, 0x49, 0x53, 0x54]) {
            ChunkTag::List
        } else if same_code(bytes, [0x49, 0x4e, 0x46, 0x4f]) {
            ChunkTag::Info
        } else {
            ChunkTag::Unknown(*bytes)
        }
    }

    /// The four bytes of the tag.
    pub fn to_bytes(self) -> (r: [u8; 4])
        ensures
            r@ == self.code(),
    {
        let r = match self {
            ChunkTag::Riff => [0x52, 0x49, 0x46, 0x46],
            ChunkTag::Fmt => [0x66, 0x6d, 0x74, 0x20],
            ChunkTag::Data => [0x64, 0x61, 0x74, 0x61],
            ChunkTag::Wave => [0x57, 0x41, 0x56, 0x45],
            ChunkTag::List => [0x4c, 0x49, 0x53, 0x54],
            ChunkTag::Info => [0x49, 0x4e, 0x46, 0x4f],
            ChunkTag::Unknown(b) => b,
        };
        assert(r@ =~= self.code());
        r
    }
}

/// Whether two four-byte identifiers are equal.
pub(crate) fn same_code(a: &[u8; 4], b: [u8; 4]) -> (r: bool)
    ensures
        r == (a@ == b@),
{
    let r = a[0] == b[0] && a[1] == b[1] && a[2] == b[2] && a[3] == b[3];
    assert(r ==> a@ =~= b@);
    assert(a@ == b@ ==> a@[3] == b@[3]);
    r
}

/// Tags are equal when they stand for the same four bytes.
impl PartialEq for ChunkTag {
    fn eq(&self, other: &ChunkTag) -> (r: bool) {
        same_code(&self.to_bytes(), other.to_bytes())
    }
}

impl vstd::std_specs::cmp::PartialEqSpecImpl for ChunkTag {
    open spec fn obeys_eq_spec() -> bool {
        true
    }

    open spec fn eq_spec(&self, other: &ChunkTag) -> bool {
        self.code() == other.code()
    }
}

impl Eq for ChunkTag {
}

/// A record as plain values: its identifier and its payload.
pub struct ChunkRecord {
    /// The four bytes of the tag.
    pub code: Seq<u8>,
    /// The payload, without the header and without a pad byte.
    pub payload: Seq<u8>,
}

/// Resource Interchange File Format (RIFF) tagged chunk.
#[derive(Debug)]
pub struct Chunk {
    /// Chunk tag
    pub id: ChunkTag,
    /// The payload, without the header and without a pad byte.
    pub bytes: Vec<u8>,
}

impl View for Chunk {
    type V = ChunkRecord;

    open spec fn view(&self) -> ChunkRecord {
        ChunkRecord { code: self.id.code(), payload: self.bytes@ }
    }
}

/// The payload length that the record header at the start of `s` declares.
pub open spec fn declared_len(s: Seq<u8>) -> int {
    le_u32_at(s, 4)
}

/// The record header at the start of `s` is complete, and so is the payload it declares.
pub open spec fn record_fits(s: Seq<u8>) -> bool {
    8 <= s.len() && 8 + declared_len(s) <= s.len()
}

/// The record at the start of `s`.
pub open spec fn first_record(s: Seq<u8>) -> ChunkRecord {
    ChunkRecord { code: s.subrange(0, 4), payload: s.subrange(8, 8 + declared_len(s)) }
}

/// The bytes that the record at the start of `s` takes, with its pad byte when the
/// declared length is odd and the pad byte is there.
pub open spec fn record_span(s: Seq<u8>) -> int {
    let full = 8 + declared_len(s) + declared_len(s) % 2;
    if full <= s.len() {
        full
    } else {
        s.len() as int
    }
}

/// The records that follow one another in `s`, or `None` when one of them is cut short.
pub open spec fn split_records(s: Seq<u8>) -> Option<Seq<ChunkRecord>>
    decreases s.len(),
{
    if s.len() == 0 {
        Some(Seq::empty())
    } else if !record_fits(s) {
        None
    } else {
        match split_records(s.subrange(record_span(s), s.len() as int)) {
            Some(rest) => Some(seq![first_record(s)] + rest),
            None => None,
        }
    }
}

/// The records inside the RIFF/WAVE container that `s` holds.
pub open spec fn parse_riff(s: Seq<u8>) -> Result<Seq<ChunkRecord>, Error> {
    if !record_fits(s) {
        Err(Error::TruncatedChunk)
    } else if s.subrange(0, 4) != riff_code() {
        Err(Error::NoRiffChunkFound)
    } else {
        let p = first_record(s).payload;
        if p.len() < 4 {
            Err(Error::TruncatedChunk)
        } else if p.subrange(0, 4) != wave_code() {
            Err(Error::NoWaveTagFound)
        } else {
            match split_records(p.subrange(4, p.len() as int)) {
                Some(rs) => Ok(rs),
                None => Err(Error::TruncatedChunk),
            }
        }
    }
}

/// The bytes of a record: tag, length, payload, and a zero pad byte when the length is odd.
pub open spec fn frame(r: ChunkRecord) -> Seq<u8> {
    r.code + u32_bytes(r.payload.len() as int) + r.payload + (if r.payload.len() % 2 == 1 {
        seq![0u8]
    } else {
        Seq::empty()
    })
}

/// A record can be framed when its identifier has four bytes and its length fits the
/// 32-bit length field.
pub open spec fn can_frame(r: ChunkRecord) -> bool {
    r.code.len() == 4 && r.payload.len() <= u32::MAX
}

/// Splitting a framed record followed by more bytes gives the record back first.
pub proof fn lemma_split_frame(r: ChunkRecord, rest: Seq<u8>)
    requires
        can_frame(r),
    ensures
        split_records(frame(r) + rest) == match split_records(rest) {
            Some(more) => Some(seq![r] + more),
            None => None::<Seq<ChunkRecord>>,
        },
{
    let n = r.payload.len() as int;
    let s = frame(r) + rest;
    lemma_u32_bytes(n);
    assert(s.subrange(4, 8) =~= u32_bytes(n));
    assert(declared_len(s) == le_u32_at(u32_bytes(n), 0));
    assert(s.subrange(0, 4) =~= r.code);
    assert(s.subrange(8, 8 + n) =~= r.payload);
    assert(record_span(s) == 8 + n + n % 2);
    assert(s.subrange(record_span(s), s.len() as int) =~= rest);
}

/// The bytes that a framed record with a payload of `n` bytes takes.
pub open spec fn framed_len(n: int) -> int {
    8 + n + n % 2
}

/// The views of a sequence of chunks.
pub open spec fn records_of(cs: Seq<Chunk>) -> Seq<ChunkRecord> {
    cs.map_values(|c: Chunk| c@)
}

/// Every chunk of `cs` has a canonical tag.
pub open spec fn all_canonical(cs: Seq<Chunk>) -> bool {
    forall|i: int| 0 <= i < cs.len() ==> (#[trigger] cs[i]).id.is_canonical()
}

impl Chunk {
    /// Reads the record at the start of `bytes`; what follows it is left alone.
    pub fn from_bytes(bytes: &[u8]) -> (r: Result<Self, Error>)
        ensures
            match r {
                Ok(c) => record_fits(bytes@) && c@ == first_record(bytes@) && c.id.is_canonical(),
                Err(e) => !record_fits(bytes@) && e == Error::TruncatedChunk,
            },
    {
        if bytes.len() < 8 {
            return Err(Error::TruncatedChunk);
        }
        let size = read_u32(bytes, 4);
        if size as usize > bytes.len() - 8 {
            return Err(Error::TruncatedChunk);
        }
        let code = [bytes[0], bytes[1], bytes[2], bytes[3]];
        assert(code@ =~= bytes@.subrange(0, 4));
        let id = ChunkTag::from_bytes(&code);
        let payload = slice_to_vec(slice_subrange(bytes, 8, 8 + size as usize));
        Ok(Chunk { id, bytes: payload })
    }

    /// Writes the record: tag, length, payload, and a zero pad byte when the length is odd,
    /// so that every record starts at an even offset.
    pub fn to_bytes(&self) -> (r: Vec<u8>)
        requires
            self.bytes@.len() <= u32::MAX,
        ensures
            r@ == frame(self@),
    {
        let mut out: Vec<u8> = Vec::new();
        let tag = self.id.to_bytes();
        out.extend_from_slice(&tag);
        push_u32(&mut out, self.bytes.len() as u32);
        out.extend_from_slice(self.bytes.as_slice());
        if self.bytes.len() % 2 == 1 {
            out.push(0);
        }
        assert(out@ =~= frame(self@));
        out
    }
}

/// Splits a RIFF/WAVE buffer into the records inside the container, in order.
///
/// The pad byte after a payload of odd length is skipped; a record cut short is an error.
pub fn parse_chunks(bytes: &[u8]) -> (r: Result<Vec<Chunk>, Error>)
    ensures
        match r {
            Ok(cs) => parse_riff(bytes@) == Ok::<Seq<ChunkRecord>, Error>(records_of(cs@))
                && all_canonical(cs@),
            Err(e) => parse_riff(bytes@) == Err::<Seq<ChunkRecord>, Error>(e),
        },
{
    let riff = Chunk::from_bytes(bytes)?;
    if riff.id != ChunkTag::Riff {
        return Err(Error::NoRiffChunkFound);
    }
    let p = riff.bytes.as_slice();
    if p.len() < 4 {
        return Err(Error::TruncatedChunk);
    }
    let form = [p[0], p[1], p[2], p[3]];
    assert(form@ =~= p@.subrange(0, 4));
    if !same_code(&form, [0x57, 0x41, 0x56, 0x45]) {
        assert(wave_code() =~= [0x57u8, 0x41u8, 0x56u8, 0x45u8]@);
        return Err(Error::NoWaveTagFound);
    }
    assert(wave_code() =~= [0x57u8, 0x41u8, 0x56u8, 0x45u8]@);
    let ghost whole = p@.subrange(4, p@.len() as int);
    assert(first_record(bytes@).payload == p@);
    let mut chunks: Vec<Chunk> = Vec::new();
    let mut index: usize = 4;
    while index < p.len()
        invariant
            4 <= index <= p@.len(),
            whole == p@.subrange(4, p@.len() as int),
            parse_riff(bytes@) == match split_records(whole) {
                Some(rs) => Ok(rs),
                None => Err(Error::TruncatedChunk),
            },
            split_records(whole) == match split_records(p@.subrange(index as int, p@.len() as int)) {
                Some(rest) => Some(records_of(chunks@) + rest),
                None => None::<Seq<ChunkRecord>>,
            },
            all_canonical(chunks@),
        decreases p@.len() - index,
    {
        let tail = slice_subrange(p, index, p.len());
        let chunk = match Chunk::from_bytes(tail) {
            Ok(c) => c,
            Err(e) => {
                assert(split_records(tail@) is None);
                assert(split_records(whole) is None);
                return Err(e);
            },
        };
        let n = chunk.bytes.len();
        let remaining = p.len() - index;
        let step = if n % 2 == 1 && n + 9 <= remaining {
            n + 9
        } else if n + 8 <= remaining {
            n + 8
        } else {
            remaining
        };
        proof {
            let s = p@.subrange(index as int, p@.len() as int);
            assert(s == tail@);
            assert(step == record_span(s));
            assert(s.subrange(step as int, s.len() as int) =~= p@.subrange(
                index + step,
                p@.len() as int,
            ));
            assert(records_of(chunks@.push(chunk)) =~= records_of(chunks@).push(chunk@));
        }
        chunks.push(chunk);
        index = index + step;
        proof {
            let before = records_of(chunks@).drop_last();
            assert(forall|rest: Seq<ChunkRecord>|
                before + (seq![records_of(chunks@).last()] + rest) =~= records_of(chunks@) + rest);
        }
    }
    assert(p@.subrange(index as int, p@.len() as int) =~= Seq::<u8>::empty());
    assert(records_of(chunks@) + Seq::<ChunkRecord>::empty() =~= records_of(chunks@));
    Ok(chunks)
}

} // verus!
