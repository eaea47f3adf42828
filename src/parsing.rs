//! Records as a tree: `LIST` records are opened and the records inside them parsed in turn.
use vstd::prelude::*;
use vstd::slice::slice_subrange;
use vstd::slice::slice_to_vec;

use crate::chunk::{first_record, record_fits, record_span, same_code};
use crate::data::{decode_samples, Data, Samples};
use crate::error::Error;
use crate::fmt::{decode_fmt, Fmt};
use crate::le::read_u32;

verus! {

/// 4 byte chunk IDs used in RIFF files to describe various sections of data
#[derive(Debug, PartialEq, Eq, Clone, Copy)]
pub enum ChunkId {
    /// RIFF file header
    RIFF,
    /// FMT header containing wave file data
    FMT,
    /// RIFF list chunk containing an id and list of chunks
    LIST,
    /// Audio data
    DATA,
    /// Junk data
    JUNK,
    /// WAVE data
    WAVE,
    /// Info list, containing metadata
    INFO,
    /// Track title
    INAM,
    /// Artist
    IART,
    /// Album title
    IPRD,
    /// Software used to create the file
    ISFT,
    /// Creation date (YYYY-MM-DD or YYYY)
    ITCH,
    /// Genre
    IGNR,
    /// Secondary genre
    ISGN,
    /// Copyright information
    ICOP,
    /// Track number
    TRCK,
    /// Length
    TLEN,
    /// Unimplemented or unknown chunk id
    Other([u8; 4]),
}

/// The identifier that four bytes stand for; identifiers without a variant of their own
/// are kept in [`ChunkId::Other`].
pub open spec fn id_of(c: Seq<u8>) -> ChunkId {
    if c == seq![0x52u8, 0x49u8, 0x46u8, 0x46u8] {
        ChunkId::RIFF
    } else if c == seq![0x66u8, 0x6du8, 0x74u8, 0x20u8] {
        ChunkId::FMT
    } else if c == seq![0x4cu8, 0x49u8, 0x53u8, 0x54u8] {
        ChunkId::LIST
    } else if c == seq![0x64u8, 0x61u8, 0x74u8, 0x61u8] {
        ChunkId::DATA
    } else if c == seq![0x4au8, 0x55u8, 0x4eu8, 0x4bu8] {
        ChunkId::JUNK
    } else if c == seq![0x57u8, 0x41u8, 0x56u8, 0x45u8] {
        ChunkId::WAVE
    } else if c == seq![0x49u8, 0x4eu8, 0x46u8, 0x4fu8] {
        ChunkId::INFO
    } else if c == seq![0x49u8, 0x4eu8, 0x41u8, 0x4du8] {
        ChunkId::INAM
    } else if c == seq![0x49u8, 0x41u8, 0x52u8, 0x54u8] {
        ChunkId::IART
    } else if c == seq![0x49u8, 0x50u8, 0x52u8, 0x44u8] {
        ChunkId::IPRD
    } else if c == seq![0x49u8, 0x53u8, 0x46u8, 0x54u8] {
        ChunkId::ISFT
    } else {
        ChunkId::Other([c[0], c[1], c[2], c[3]])
    }
}

impl ChunkId {
    /// Parse raw bytes into [`ChunkId`]: `RIFF`, `fmt `, `LIST`, `data`, `JUNK`, `WAVE`,
    /// `INFO`, `INAM`, `IART`, `IPRD` and `ISFT` are recognised, anything else is `Other`.
    pub fn from_bytes(bytes: &[u8; 4]) -> (r: ChunkId)
        ensures
            r == id_of(bytes@),
    {
        let r = if same_code(bytes, [0x52, 0x49, 0x46, 0x46]) {
            ChunkId::RIFF
        } else if same_code(bytes, [0x66, 0x6d, 0x74, 0x20]) {
            ChunkId::FMT
        } else if same_code(bytes, [0x4c, 0x49, 0x53, 0x54]) {
            ChunkId::LIST
        } else if same_code(bytes, [0x64, 0x61, 0x74, 0x61]) {
            ChunkId::DATA
        } else if same_code(bytes, [0x4a, 0x55, 0x4e, 0x4b]) {
            ChunkId::JUNK
        } else if same_code(bytes, [0x57, 0x41, 0x56, 0x45]) {
            ChunkId::WAVE
        } else if same_code(bytes, [0x49, 0x4e, 0x46, 0x4f]) {
            ChunkId::INFO
        } else if same_code(bytes, [0x49, 0x4e, 0x41, 0x4d]) {
            ChunkId::INAM
        } else if same_code(bytes, [0x49, 0x41, 0x52, 0x54]) {
            ChunkId::IART
        } else if same_code(bytes, [0x49, 0x50, 0x52, 0x44]) {
            ChunkId::IPRD
        } else if same_code(bytes, [0x49, 0x53, 0x46, 0x54]) {
            ChunkId::ISFT
        } else {
            ChunkId::Other(*bytes)
        };
        proof {
            let c = [bytes@[0], bytes@[1], bytes@[2], bytes@[3]];
            assert(c@ =~= bytes@);
            assert(c =~= *bytes);
        }
        r
    }
}

/// How deep `LIST` records are opened: a `LIST` at this depth is kept as raw bytes.
pub const MAX_NESTING: u32 = 16;

/// Enum describing various .wav file data relationships
#[derive(Debug)]
pub enum Chunk {
    /// [`ChunkId::FMT`] containing header data
    FMT(Fmt),
    /// [`ChunkId::DATA`] containing sample data
    DATA(Data),
    /// [`ChunkId::LIST`] containing the list type and the chunks inside
    LIST(ChunkId, Vec<Chunk>),
    /// Unknown or (most likely) unimplemented [`ChunkId`], containing raw bytes
    Unknown(ChunkId, Vec<u8>),
}

/// A [`Chunk`] as plain values.
pub enum ChunkNode {
    /// A decoded `fmt ` payload.
    Format(Fmt),
    /// A decoded `data` payload.
    Samples(Samples),
    /// A list: its type and the records inside.
    List(ChunkId, Seq<ChunkNode>),
    /// Any other record: its identifier and its payload.
    Raw(ChunkId, Seq<u8>),
}

/// The plain value of `c`, looked into `depth` levels of lists deep.
pub open spec fn node_of(c: Chunk, depth: nat) -> ChunkNode
    decreases depth, 0nat,
{
    match c {
        Chunk::FMT(f) => ChunkNode::Format(f),
        Chunk::DATA(d) => ChunkNode::Samples(d@),
        Chunk::LIST(id, cs) => ChunkNode::List(
            id,
            if depth == 0 {
                Seq::empty()
            } else {
                nodes_of(cs@, (depth - 1) as nat)
            },
        ),
        Chunk::Unknown(id, b) => ChunkNode::Raw(id, b@),
    }
}

/// The plain values of a run of chunks.
pub open spec fn nodes_of(cs: Seq<Chunk>, depth: nat) -> Seq<ChunkNode>
    decreases depth, 1nat,
{
    Seq::new(cs.len(), |i: int| node_of(cs[i], depth))
}

/// What the payload `p` of a record with identifier `id` becomes: `data` is decoded at
/// the bit depth of `fmt`; a `LIST` is opened while `depth` allows, its first four bytes
/// naming the list type; anything else is kept as it is.
pub open spec fn parse_node(fmt: Fmt, id: ChunkId, p: Seq<u8>, depth: nat) -> Result<
    ChunkNode,
    Error,
>
    decreases depth, 0nat, 0nat,
{
    if id is DATA {
        match decode_samples(fmt.bit_depth, p) {
            Ok(s) => Ok(ChunkNode::Samples(s)),
            Err(e) => Err(e),
        }
    } else if id is LIST && depth > 0 {
        if p.len() < 4 {
            Err(Error::TruncatedChunk)
        } else {
            match parse_run(fmt, p.subrange(4, p.len() as int), (depth - 1) as nat) {
                Ok(ns) => Ok(ChunkNode::List(id_of(p.subrange(0, 4)), ns)),
                Err(e) => Err(e),
            }
        }
    } else {
        Ok(ChunkNode::Raw(id, p))
    }
}

/// What the records that follow one another in `s` become, or the first error met.
pub open spec fn parse_run(fmt: Fmt, s: Seq<u8>, depth: nat) -> Result<Seq<ChunkNode>, Error>
    decreases depth, 1nat, s.len(),
{
    if s.len() == 0 {
        Ok(Seq::empty())
    } else if !record_fits(s) {
        Err(Error::TruncatedChunk)
    } else {
        match parse_node(fmt, id_of(s.subrange(0, 4)), first_record(s).payload, depth) {
            Err(e) => Err(e),
            Ok(n) => match parse_run(fmt, s.subrange(record_span(s), s.len() as int), depth) {
                Ok(ns) => Ok(seq![n] + ns),
                Err(e) => Err(e),
            },
        }
    }
}

/// The plain value of a parsing result.
pub open spec fn node_result(r: Result<Chunk, Error>, depth: nat) -> Result<ChunkNode, Error> {
    match r {
        Ok(c) => Ok(node_of(c, depth)),
        Err(e) => Err(e),
    }
}

/// The plain value of a parsing result.
pub open spec fn nodes_result(r: Result<Vec<Chunk>, Error>, depth: nat) -> Result<
    Seq<ChunkNode>,
    Error,
> {
    match r {
        Ok(cs) => Ok(nodes_of(cs@, depth)),
        Err(e) => Err(e),
    }
}

impl Chunk {
    /// attempt to parse bytes into valid [`Chunk`] based on [`ChunkId`] and [`Fmt`]
    pub fn from_bytes_with_id_and_header(header: &Fmt, id: &ChunkId, bytes: &[u8]) -> (r: Result<
        Chunk,
        Error,
    >)
        ensures
            node_result(r, MAX_NESTING as nat) == parse_node(
                *header,
                *id,
                bytes@,
                MAX_NESTING as nat,
            ),
    {
        chunk_within(header, id, bytes, MAX_NESTING)
    }

    /// attempt to parse bytes into valid [`Chunk`] based on [`ChunkId`]: only a `fmt `
    /// payload makes a chunk without knowing the format.
    pub fn from_bytes_with_id(id: &ChunkId, bytes: &[u8]) -> (r: Result<Option<Chunk>, Error>)
        ensures
            match r {
                Ok(Some(c)) => id is FMT && c is FMT && decode_fmt(bytes@) == Ok::<Fmt, Error>(
                    c->FMT_0,
                ),
                Ok(None) => !(id is FMT),
                Err(e) => id is FMT && decode_fmt(bytes@) == Err::<Fmt, Error>(e),
            },
    {
        match id {
            ChunkId::FMT => match Fmt::from_bytes(bytes) {
                Ok(header) => Ok(Some(Chunk::FMT(header))),
                Err(e) => Err(e),
            },
            _ => Ok(None),
        }
    }
}

/// Turns one record into a chunk, opening lists `depth` levels deep.
fn chunk_within(header: &Fmt, id: &ChunkId, bytes: &[u8], depth: u32) -> (r: Result<Chunk, Error>)
    ensures
        node_result(r, depth as nat) == parse_node(*header, *id, bytes@, depth as nat),
    decreases depth, 0nat, 0nat,
{
    match id {
        ChunkId::DATA => match Data::from_bytes(header, bytes) {
            Ok(d) => Ok(Chunk::DATA(d)),
            Err(e) => Err(e),
        },
        ChunkId::LIST if depth > 0 => {
            if bytes.len() < 4 {
                return Err(Error::TruncatedChunk);
            }
            let kind = [bytes[0], bytes[1], bytes[2], bytes[3]];
            assert(kind@ =~= bytes@.subrange(0, 4));
            let list_id = ChunkId::from_bytes(&kind);
            match run_within(header, slice_subrange(bytes, 4, bytes.len()), depth - 1) {
                Ok(cs) => {
                    let ghost cv = cs@;
                    let r = Chunk::LIST(list_id, cs);
                    assert(r->LIST_1@ == cv);
                    Ok(r)
                },
                Err(e) => Err(e),
            }
        },
        _ => Ok(Chunk::Unknown(*id, slice_to_vec(bytes))),
    }
}

/// Parses the records that follow one another in `bytes`, opening lists `depth` levels deep.
fn run_within(header: &Fmt, bytes: &[u8], depth: u32) -> (r: Result<Vec<Chunk>, Error>)
    ensures
        nodes_result(r, depth as nat) == parse_run(*header, bytes@, depth as nat),
    decreases depth, 1nat, bytes@.len(),
{
    let mut chunks: Vec<Chunk> = Vec::new();
    let mut tail = bytes;
    while tail.len() > 0
        invariant
            parse_run(*header, bytes@, depth as nat) == match parse_run(
                *header,
                tail@,
                depth as nat,
            ) {
                Ok(rest) => Ok(nodes_of(chunks@, depth as nat) + rest),
                Err(e) => Err(e),
            },
        decreases tail@.len(),
    {
        let (id, payload, rest) = match parse_chunk(tail) {
            Ok(parts) => parts,
            Err(e) => return Err(e),
        };
        let c = match chunk_within(header, &id, payload, depth) {
            Ok(c) => c,
            Err(e) => return Err(e),
        };
        let ghost before = chunks@;
        chunks.push(c);
        proof {
            assert(nodes_of(chunks@, depth as nat) =~= nodes_of(before, depth as nat).push(
                node_of(c, depth as nat),
            ));
            assert(forall|more: Seq<ChunkNode>|
                nodes_of(before, depth as nat) + (seq![node_of(c, depth as nat)] + more)
                    =~= nodes_of(chunks@, depth as nat) + more);
        }
        tail = rest;
    }
    assert(nodes_of(chunks@, depth as nat) + Seq::<ChunkNode>::empty() =~= nodes_of(
        chunks@,
        depth as nat,
    ));
    Ok(chunks)
}

/// Parses the records that follow one another in `bytes` into chunks, opening lists
/// [`MAX_NESTING`] levels deep; `data` records are decoded with `header`.
pub fn parse_chunks(header: &Fmt, bytes: &[u8]) -> (r: Result<Vec<Chunk>, Error>)
    ensures
        nodes_result(r, MAX_NESTING as nat) == parse_run(*header, bytes@, MAX_NESTING as nat),
{
    run_within(header, bytes, MAX_NESTING)
}

/// Splits off the record at the start of `bytes`: its identifier, its payload, and what
/// follows it after the pad byte of an odd-length payload.
pub fn parse_chunk(bytes: &[u8]) -> (r: Result<(ChunkId, &[u8], &[u8]), Error>)
    ensures
        match r {
            Ok((id, payload, tail)) => record_fits(bytes@) && id == id_of(bytes@.subrange(0, 4))
                && payload@ == first_record(bytes@).payload && tail@ == bytes@.subrange(
                record_span(bytes@),
                bytes@.len() as int,
            ),
            Err(e) => !record_fits(bytes@) && e == Error::TruncatedChunk,
        },
{
    if bytes.len() < 8 {
        return Err(Error::TruncatedChunk);
    }
    let size = read_u32(bytes, 4) as usize;
    if size > bytes.len() - 8 {
        return Err(Error::TruncatedChunk);
    }
    let code = [bytes[0], bytes[1], bytes[2], bytes[3]];
    assert(code@ =~= bytes@.subrange(0, 4));
    let id = ChunkId::from_bytes(&code);
    let end = 8 + size;
    let next = if size % 2 == 1 && end < bytes.len() {
        end + 1
    } else {
        end
    };
    Ok((id, slice_subrange(bytes, 8, end), slice_subrange(bytes, next, bytes.len())))
}

} // verus!
