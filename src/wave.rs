//! A WAVE file whose other records are parsed as a tree.
use vstd::prelude::*;

use crate::chunk::{records_of, ChunkRecord};
use crate::data::{Data, Samples};
use crate::error::Error;
use crate::fmt::Fmt;
use crate::parsing::{
    id_of, node_of, nodes_of, parse_node, Chunk, ChunkId, ChunkNode, MAX_NESTING,
};
use crate::wav::{decode_wav, Wav};

verus! {

/// Struct representing a .wav file
#[derive(Debug)]
pub struct Wave {
    /// Contains data from the fmt chunk / header part of the file
    pub header: Fmt,
    /// Contains audio data as samples of a fixed bit depth
    pub data: Data,
    /// The other records of the file, with lists opened; `None` when there are none
    pub unknown_chunks: Option<Vec<Chunk>>,
}

/// What the records other than `fmt ` and `data` become, in order, or the first error met.
pub open spec fn parse_others(fmt: Fmt, rs: Seq<ChunkRecord>) -> Result<Seq<ChunkNode>, Error>
    decreases rs.len(),
{
    if rs.len() == 0 {
        Ok(Seq::empty())
    } else {
        match parse_node(fmt, id_of(rs[0].code), rs[0].payload, MAX_NESTING as nat) {
            Err(e) => Err(e),
            Ok(n) => match parse_others(fmt, rs.drop_first()) {
                Ok(ns) => Ok(seq![n] + ns),
                Err(e) => Err(e),
            },
        }
    }
}

/// What a buffer decodes to: the document of [`decode_wav`], with its other records
/// parsed as a tree.
pub open spec fn decode_wave(s: Seq<u8>) -> Result<(Fmt, Samples, Seq<ChunkNode>), Error> {
    match decode_wav(s) {
        Err(e) => Err(e),
        Ok(w) => match parse_others(w.fmt, w.chunks) {
            Err(e) => Err(e),
            Ok(ns) => Ok((w.fmt, w.data, ns)),
        },
    }
}

/// The other records of a [`Wave`] as plain values.
pub open spec fn others_of(o: Option<Vec<Chunk>>) -> Seq<ChunkNode> {
    match o {
        Some(cs) => nodes_of(cs@, MAX_NESTING as nat),
        None => Seq::empty(),
    }
}

impl Wave {
    /// Create new [`Wave`] instance from a slice of bytes
    pub fn from_bytes(bytes: &[u8]) -> (r: Result<Self, Error>)
        ensures
            match r {
                Ok(v) => decode_wave(bytes@) == Ok::<(Fmt, Samples, Seq<ChunkNode>), Error>(
                    (v.header, v.data@, others_of(v.unknown_chunks)),
                ) && (v.unknown_chunks matches Some(cs) ==> cs@.len() > 0),
                Err(e) => decode_wave(bytes@) == Err::<(Fmt, Samples, Seq<ChunkNode>), Error>(e),
            },
    {
        let wav = match Wav::from_bytes(bytes) {
            Ok(w) => w,
            Err(e) => return Err(e),
        };
        let ghost rs = wav@.chunks;
        let ghost w = wav@;
        let Wav { fmt, data, chunks } = wav;
        let mut others: Vec<Chunk> = Vec::new();
        let mut i: usize = 0;
        assert(rs.subrange(0, rs.len() as int) =~= rs);
        assert(forall|more: Seq<ChunkNode>|
            nodes_of(others@, MAX_NESTING as nat) + more =~= more);
        while i < chunks.len()
            invariant
                i <= chunks@.len(),
                rs == records_of(chunks@),
                decode_wav(bytes@) == Ok::<crate::wav::WavView, Error>(w),
                w.fmt == fmt,
                w.data == data@,
                w.chunks == rs,
                parse_others(fmt, rs) == match parse_others(
                    fmt,
                    rs.subrange(i as int, rs.len() as int),
                ) {
                    Ok(rest) => Ok(nodes_of(others@, MAX_NESTING as nat) + rest),
                    Err(e) => Err(e),
                },
            decreases chunks@.len() - i,
        {
            let c = &chunks[i];
            let id = ChunkId::from_bytes(&c.id.to_bytes());
            proof {
                let tail = rs.subrange(i as int, rs.len() as int);
                assert(tail[0] == c@);
                assert(tail.drop_first() =~= rs.subrange(i + 1, rs.len() as int));
            }
            let node = match Chunk::from_bytes_with_id_and_header(&fmt, &id, c.bytes.as_slice()) {
                Ok(n) => n,
                Err(e) => return Err(e),
            };
            let ghost before = others@;
            others.push(node);
            proof {
                let m = MAX_NESTING as nat;
                assert(nodes_of(others@, m) =~= nodes_of(before, m).push(node_of(node, m)));
                assert(forall|more: Seq<ChunkNode>|
                    nodes_of(before, m) + (seq![node_of(node, m)] + more) =~= nodes_of(
                        others@,
                        m,
                    ) + more);
            }
            i = i + 1;
        }
        assert(rs.subrange(i as int, rs.len() as int) =~= Seq::<ChunkRecord>::empty());
        assert(nodes_of(others@, MAX_NESTING as nat) + Seq::<ChunkNode>::empty() =~= nodes_of(
            others@,
            MAX_NESTING as nat,
        ));
        let unknown_chunks = if others.len() == 0 {
            assert(nodes_of(others@, MAX_NESTING as nat) =~= Seq::<ChunkNode>::empty());
            None
        } else {
            Some(others)
        };
        Ok(Wave { header: fmt, data, unknown_chunks })
    }
}

} // verus!
