//! A whole WAVE file: its format, its samples and the other records it holds.
use vstd::prelude::*;
use vstd::slice::slice_to_vec;

use crate::chunk::{
    all_canonical, can_frame, data_code, first_record, fmt_code, frame, framed_len, lemma_split_frame,
    parse_chunks, parse_riff, records_of, riff_code, split_records, wave_code, Chunk, ChunkRecord,
    ChunkTag,
};
use crate::data::{
    decode_samples, encode_samples, lemma_encode_samples_len, lemma_samples_round_trip, Data, Samples,
};
use crate::error::Error;
use crate::fmt::{decode_fmt, encode_fmt, lemma_encode_fmt_len, lemma_fmt_round_trip, Fmt};
use crate::le::{le_u32_at, lemma_u32_bytes, push_u32, u32_bytes};

verus! {

/// Struct representing a WAV file
#[derive(Debug)]
pub struct Wav {
    /// Contains data from the fmt chunk / header part of the file
    pub fmt: Fmt,
    /// Contains audio data as samples of a fixed bit depth
    pub data: Data,
    /// Every other record of the file, in the order in which they stood
    pub chunks: Vec<Chunk>,
}

/// A WAVE file as plain values.
pub struct WavView {
    /// The format.
    pub fmt: Fmt,
    /// The samples.
    pub data: Samples,
    /// The other records, in order.
    pub chunks: Seq<ChunkRecord>,
}

impl View for Wav {
    type V = WavView;

    open spec fn view(&self) -> WavView {
        WavView { fmt: self.fmt, data: self.data@, chunks: records_of(self.chunks@) }
    }
}

/// Picks the `fmt ` records.
pub open spec fn fmt_records() -> spec_fn(ChunkRecord) -> bool {
    |r: ChunkRecord| r.code == fmt_code()
}

/// Picks the `data` records.
pub open spec fn data_records() -> spec_fn(ChunkRecord) -> bool {
    |r: ChunkRecord| r.code == data_code()
}

/// Picks the records that are neither `fmt ` nor `data`.
pub open spec fn other_records() -> spec_fn(ChunkRecord) -> bool {
    |r: ChunkRecord| r.code != fmt_code() && r.code != data_code()
}

/// What a buffer decodes to: the document that its records make.
pub open spec fn decode_wav(s: Seq<u8>) -> Result<WavView, Error> {
    match parse_riff(s) {
        Err(e) => Err(e),
        Ok(rs) => decode_records(rs),
    }
}

/// The document that the records of a file make: there must be exactly one `fmt `
/// record and exactly one `data` record; the format is decoded first, the samples at
/// its bit depth, and every other record is kept as it is, in order.
pub open spec fn decode_records(rs: Seq<ChunkRecord>) -> Result<WavView, Error> {
    let fmts = rs.filter(fmt_records());
    let datas = rs.filter(data_records());
    if fmts.len() != 1 {
        Err(Error::NoFmtChunkFound)
    } else if datas.len() != 1 {
        Err(Error::NoDataChunkFound)
    } else {
        match decode_fmt(fmts[0].payload) {
            Err(e) => Err(e),
            Ok(f) => match decode_samples(f.bit_depth, datas[0].payload) {
                Err(e) => Err(e),
                Ok(d) => Ok(WavView { fmt: f, data: d, chunks: rs.filter(other_records()) }),
            },
        }
    }
}

/// The frame of `r` when it is neither `fmt ` nor `data`, else nothing: a document
/// holds one record of each of those two, written from its format and its samples.
pub open spec fn kept_frame(r: ChunkRecord) -> Seq<u8> {
    if (other_records())(r) {
        frame(r)
    } else {
        Seq::empty()
    }
}

/// The records one after the other, each framed, leaving out `fmt ` and `data` records.
pub open spec fn frames(cs: Seq<ChunkRecord>) -> Seq<u8>
    decreases cs.len(),
{
    if cs.len() == 0 {
        Seq::empty()
    } else {
        kept_frame(cs[0]) + frames(cs.drop_first())
    }
}

/// What follows `WAVE`: the `fmt ` record, the `data` record, then the other records
/// that are neither `fmt ` nor `data`.
pub open spec fn wav_body(w: WavView) -> Seq<u8> {
    frame(ChunkRecord { code: fmt_code(), payload: encode_fmt(w.fmt) }) + frame(
        ChunkRecord { code: data_code(), payload: encode_samples(w.data) },
    ) + frames(w.chunks)
}

/// The bytes of a WAVE file.
#[verifier::opaque]
pub open spec fn encode_wav(w: WavView) -> Seq<u8> {
    riff_code() + u32_bytes(4 + wav_body(w).len() as int) + wave_code() + wav_body(w)
}

/// The bytes that [`frames`] takes.
pub open spec fn frames_len(cs: Seq<ChunkRecord>) -> int
    decreases cs.len(),
{
    if cs.len() == 0 {
        0
    } else {
        (if (other_records())(cs[0]) {
            framed_len(cs[0].payload.len() as int)
        } else {
            0
        }) + frames_len(cs.drop_first())
    }
}

/// The value of the RIFF length field of the written document: `WAVE`, then the
/// `fmt `, `data` and other kept records, each framed.
pub open spec fn riff_len(w: WavView) -> int {
    4 + framed_len(16) + framed_len(w.data.payload_len()) + frames_len(w.chunks)
}

/// Framed records with four-byte identifiers take [`frames_len`] bytes.
pub proof fn lemma_frames_len(cs: Seq<ChunkRecord>)
    requires
        forall|i: int| 0 <= i < cs.len() ==> (#[trigger] cs[i]).code.len() == 4,
    ensures
        frames(cs).len() == frames_len(cs),
    decreases cs.len(),
{
    if cs.len() > 0 {
        assert(cs[0].code.len() == 4);
        assert(forall|i: int| 0 <= i < cs.drop_first().len() ==> cs.drop_first()[i] == cs[i + 1]);
        lemma_frames_len(cs.drop_first());
    }
}

/// The written document is [`riff_len`] bytes long after the RIFF length field.
pub proof fn lemma_riff_len(w: WavView)
    requires
        forall|i: int| 0 <= i < w.chunks.len() ==> (#[trigger] w.chunks[i]).code.len() == 4,
    ensures
        4 + wav_body(w).len() == riff_len(w),
{
    lemma_encode_fmt_len(w.fmt);
    lemma_encode_samples_len(w.data);
    lemma_frames_len(w.chunks);
}

/// Framing one more record appends its kept frame.
pub proof fn lemma_frames_push(cs: Seq<ChunkRecord>, r: ChunkRecord)
    ensures
        frames(cs.push(r)) == frames(cs) + kept_frame(r),
    decreases cs.len(),
{
    if cs.len() == 0 {
        assert(cs.push(r).drop_first() =~= Seq::<ChunkRecord>::empty());
        assert(cs.push(r)[0] == r);
        assert(frames(Seq::<ChunkRecord>::empty()) == Seq::<u8>::empty());
        assert(frames(cs.push(r)) =~= kept_frame(r));
    } else {
        let head = kept_frame(cs[0]);
        let tail = cs.drop_first();
        assert(cs.push(r).drop_first() =~= tail.push(r));
        assert(cs.push(r)[0] == cs[0]);
        lemma_frames_push(tail, r);
        assert(frames(cs.push(r)) == head + (frames(tail) + kept_frame(r)));
        assert(head + (frames(tail) + kept_frame(r)) =~= (head + frames(tail)) + kept_frame(r));
    }
}

/// Framing two runs of records one after the other.
pub proof fn lemma_frames_add(a: Seq<ChunkRecord>, b: Seq<ChunkRecord>)
    ensures
        frames(a + b) == frames(a) + frames(b),
    decreases a.len(),
{
    if a.len() == 0 {
        assert(a + b =~= b);
        assert(frames(a) == Seq::<u8>::empty());
        assert(frames(a) + frames(b) =~= frames(b));
    } else {
        let head = kept_frame(a[0]);
        assert((a + b).drop_first() =~= a.drop_first() + b);
        assert((a + b)[0] == a[0]);
        lemma_frames_add(a.drop_first(), b);
        assert(frames(a + b) == head + (frames(a.drop_first()) + frames(b)));
        assert(head + (frames(a.drop_first()) + frames(b)) =~= (head + frames(a.drop_first()))
            + frames(b));
    }
}

/// Splitting framed records gives back the records that are neither `fmt ` nor `data`.
pub proof fn lemma_split_frames(cs: Seq<ChunkRecord>)
    requires
        forall|i: int|
            0 <= i < cs.len() && (other_records())(#[trigger] cs[i]) ==> can_frame(cs[i]),
    ensures
        split_records(frames(cs)) == Some(cs.filter(other_records())),
    decreases cs.len(),
{
    if cs.len() == 0 {
        assert(split_records(Seq::<u8>::empty()) == Some(Seq::<ChunkRecord>::empty()));
        lemma_filter_none(cs, other_records());
    } else {
        let tail = cs.drop_first();
        assert(forall|i: int| 0 <= i < tail.len() ==> tail[i] == cs[i + 1]);
        lemma_split_frames(tail);
        assert(seq![cs[0]] + tail =~= cs);
        Seq::filter_distributes_over_add(seq![cs[0]], tail, other_records());
        lemma_filter_one(cs[0], other_records());
        if (other_records())(cs[0]) {
            assert(can_frame(cs[0]));
            lemma_split_frame(cs[0], frames(tail));
        } else {
            assert(frames(cs) =~= frames(tail));
            assert(Seq::<ChunkRecord>::empty() + tail.filter(other_records()) =~= tail.filter(
                other_records(),
            ));
        }
    }
}

/// The records that a filter keeps meet its predicate.
proof fn lemma_filter_meets<A>(s: Seq<A>, p: spec_fn(A) -> bool)
    ensures
        forall|i: int| 0 <= i < s.filter(p).len() ==> p(#[trigger] s.filter(p)[i]),
{
    assert forall|i: int| 0 <= i < s.filter(p).len() implies p(#[trigger] s.filter(p)[i]) by {
        s.lemma_filter_pred(p, i);
    }
}

/// Filtering with a predicate that no element meets.
proof fn lemma_filter_none<A>(s: Seq<A>, p: spec_fn(A) -> bool)
    requires
        forall|i: int| 0 <= i < s.len() ==> !p(#[trigger] s[i]),
    ensures
        s.filter(p) == Seq::<A>::empty(),
    decreases s.len(),
{
    reveal(Seq::filter);
    if s.len() > 0 {
        lemma_filter_none(s.drop_last(), p);
    }
}

/// Filtering with a predicate that every element meets.
proof fn lemma_filter_all<A>(s: Seq<A>, p: spec_fn(A) -> bool)
    requires
        forall|i: int| 0 <= i < s.len() ==> p(#[trigger] s[i]),
    ensures
        s.filter(p) == s,
    decreases s.len(),
{
    reveal(Seq::filter);
    if s.len() > 0 {
        lemma_filter_all(s.drop_last(), p);
        assert(s.drop_last().push(s.last()) =~= s);
    }
}

/// A document can be written and read back: its bit depth is the one of its samples,
/// every 24-bit sample fits in 24 bits, every other record has a four-byte identifier,
/// and the whole fits the RIFF length field.
pub open spec fn can_round_trip(w: WavView) -> bool {
    &&& w.fmt.bit_depth == w.data.bit_depth()
    &&& w.data.in_range()
    &&& forall|i: int| 0 <= i < w.chunks.len() ==> (#[trigger] w.chunks[i]).code.len() == 4
    &&& riff_len(w) <= u32::MAX
}

/// The other records of `w` that are written: those that are neither `fmt ` nor `data`.
pub open spec fn kept_records(w: WavView) -> Seq<ChunkRecord> {
    w.chunks.filter(other_records())
}

/// The RIFF record of a written document spans the whole buffer and holds `WAVE` and
/// the body.
#[verifier::spinoff_prover]
proof fn lemma_wav_container(w: WavView)
    requires
        can_round_trip(w),
    ensures
        parse_riff(encode_wav(w)) == match split_records(wav_body(w)) {
            Some(rs) => Ok(rs),
            None => Err(Error::TruncatedChunk),
        },
{
    let body = wav_body(w);
    let len = 4 + body.len() as int;
    let s = encode_wav(w);
    reveal(encode_wav);
    lemma_riff_len(w);
    assert(len <= u32::MAX);
    lemma_u32_bytes(len);
    assert(s.subrange(4, 8) =~= u32_bytes(len));
    assert(le_u32_at(s, 4) == le_u32_at(u32_bytes(len), 0));
    assert(s.subrange(0, 4) =~= riff_code());
    let p = first_record(s).payload;
    assert(p =~= wave_code() + body);
    assert(p.subrange(0, 4) =~= wave_code());
    assert(p.subrange(4, p.len() as int) =~= body);
}

/// The body of a written document splits into its records.
#[verifier::spinoff_prover]
proof fn lemma_wav_body_records(w: WavView)
    requires
        can_round_trip(w),
    ensures
        split_records(wav_body(w)) == Some(
            seq![ChunkRecord { code: fmt_code(), payload: encode_fmt(w.fmt) }] + (seq![
                ChunkRecord { code: data_code(), payload: encode_samples(w.data) },
            ] + kept_records(w)),
        ),
{
    let f = ChunkRecord { code: fmt_code(), payload: encode_fmt(w.fmt) };
    let d = ChunkRecord { code: data_code(), payload: encode_samples(w.data) };
    lemma_riff_len(w);
    lemma_frames_len(w.chunks);
    assert forall|i: int|
        0 <= i < w.chunks.len() && (other_records())(#[trigger] w.chunks[i]) implies can_frame(
        w.chunks[i],
    ) by {
        lemma_frame_len_within(w.chunks, i);
    }
    lemma_split_frames(w.chunks);
    assert(wav_body(w) =~= frame(f) + (frame(d) + frames(w.chunks)));
    lemma_split_frame(d, frames(w.chunks));
    lemma_split_frame(f, frame(d) + frames(w.chunks));
}

/// The records that the bytes of a document split into.
proof fn lemma_wav_records(w: WavView)
    requires
        can_round_trip(w),
    ensures
        parse_riff(encode_wav(w)) == Ok::<Seq<ChunkRecord>, Error>(
            seq![ChunkRecord { code: fmt_code(), payload: encode_fmt(w.fmt) }] + (seq![
                ChunkRecord { code: data_code(), payload: encode_samples(w.data) },
            ] + kept_records(w)),
        ),
{
    lemma_wav_container(w);
    lemma_wav_body_records(w);
}

/// How the three filters of [`decode_wav`] pick from the records of a written document.
proof fn lemma_wav_filters(
    f: ChunkRecord,
    d: ChunkRecord,
    all: Seq<ChunkRecord>,
    cs: Seq<ChunkRecord>,
    rs: Seq<ChunkRecord>,
)
    requires
        f.code == fmt_code(),
        d.code == data_code(),
        cs == all.filter(other_records()),
        rs == seq![f] + (seq![d] + cs),
    ensures
        rs.filter(fmt_records()).len() == 1,
        rs.filter(fmt_records())[0] == f,
        rs.filter(data_records()).len() == 1,
        rs.filter(data_records())[0] == d,
        rs.filter(other_records()) == cs,
{
    assert(fmt_code()[0] != data_code()[0]);
    lemma_filter_meets(all, other_records());
    lemma_filter_none(cs, fmt_records());
    lemma_filter_none(cs, data_records());
    lemma_filter_all(cs, other_records());
    lemma_filter_one(f, fmt_records());
    lemma_filter_one(d, fmt_records());
    lemma_filter_one(f, data_records());
    lemma_filter_one(d, data_records());
    lemma_filter_one(f, other_records());
    lemma_filter_one(d, other_records());
    Seq::filter_distributes_over_add(seq![d], cs, fmt_records());
    Seq::filter_distributes_over_add(seq![f], seq![d] + cs, fmt_records());
    Seq::filter_distributes_over_add(seq![d], cs, data_records());
    Seq::filter_distributes_over_add(seq![f], seq![d] + cs, data_records());
    Seq::filter_distributes_over_add(seq![d], cs, other_records());
    Seq::filter_distributes_over_add(seq![f], seq![d] + cs, other_records());
    assert(seq![f] + Seq::<ChunkRecord>::empty() =~= seq![f]);
    assert(Seq::<ChunkRecord>::empty() + (seq![d] + Seq::<ChunkRecord>::empty()) =~= seq![d]);
    assert(Seq::<ChunkRecord>::empty() + (Seq::<ChunkRecord>::empty() + cs) =~= cs);
    assert(rs.filter(fmt_records()) == seq![f]);
    assert(rs.filter(data_records()) == seq![d]);
}

/// Filtering a single element.
proof fn lemma_filter_one<A>(x: A, p: spec_fn(A) -> bool)
    ensures
        seq![x].filter(p) == (if p(x) {
            seq![x]
        } else {
            Seq::<A>::empty()
        }),
{
    lemma_filter_push(Seq::<A>::empty(), x, p);
    lemma_filter_none(Seq::<A>::empty(), p);
    assert(Seq::<A>::empty().push(x) =~= seq![x]);
}

/// The records of a written document make the document.
#[verifier::spinoff_prover]
#[verifier::rlimit(40)]
proof fn lemma_wav_decode_records(w: WavView)
    requires
        w.fmt.bit_depth == w.data.bit_depth(),
        w.data.in_range(),
    ensures
        decode_records(
            seq![ChunkRecord { code: fmt_code(), payload: encode_fmt(w.fmt) }] + (seq![
                ChunkRecord { code: data_code(), payload: encode_samples(w.data) },
            ] + kept_records(w)),
        ) == Ok::<WavView, Error>(WavView { fmt: w.fmt, data: w.data, chunks: kept_records(w) }),
{
    let f = ChunkRecord { code: fmt_code(), payload: encode_fmt(w.fmt) };
    let d = ChunkRecord { code: data_code(), payload: encode_samples(w.data) };
    let kept = kept_records(w);
    let rs = seq![f] + (seq![d] + kept);
    lemma_wav_filters(f, d, w.chunks, kept, rs);
    lemma_fmt_round_trip(w.fmt);
    lemma_samples_round_trip(w.fmt, w.data);
}

/// Reading the bytes that a document is written to gives back its format, its samples
/// and its other records but those tagged `fmt ` or `data`; so a document whose other
/// records hold neither comes back whole.
pub proof fn lemma_wav_round_trip(w: WavView)
    requires
        can_round_trip(w),
    ensures
        decode_wav(encode_wav(w)) == Ok::<WavView, Error>(
            WavView { fmt: w.fmt, data: w.data, chunks: kept_records(w) },
        ),
        (forall|i: int| 0 <= i < w.chunks.len() ==> (other_records())(#[trigger] w.chunks[i]))
            ==> decode_wav(encode_wav(w)) == Ok::<WavView, Error>(w),
{
    lemma_wav_records(w);
    lemma_wav_decode_records(w);
    if forall|i: int| 0 <= i < w.chunks.len() ==> (other_records())(#[trigger] w.chunks[i]) {
        lemma_filter_all(w.chunks, other_records());
    }
}

/// One kept record is no longer than the framed run it stands in.
proof fn lemma_frame_len_within(cs: Seq<ChunkRecord>, i: int)
    requires
        0 <= i < cs.len(),
        (other_records())(cs[i]),
    ensures
        cs[i].payload.len() <= frames(cs).len(),
    decreases cs.len(),
{
    if i > 0 {
        lemma_frame_len_within(cs.drop_first(), i - 1);
    }
}

/// Filtering a sequence with one more element.
proof fn lemma_filter_push<A>(s: Seq<A>, x: A, p: spec_fn(A) -> bool)
    ensures
        s.push(x).filter(p) == (if p(x) {
            s.filter(p).push(x)
        } else {
            s.filter(p)
        }),
{
    reveal(Seq::filter);
    assert(s.push(x).drop_last() =~= s);
}

impl Wav {
    /// Parses a whole WAVE buffer.
    pub fn from_bytes(bytes: &[u8]) -> (r: Result<Self, Error>)
        ensures
            match r {
                Ok(w) => decode_wav(bytes@) == Ok::<WavView, Error>(w@) && all_canonical(
                    w.chunks@,
                ),
                Err(e) => decode_wav(bytes@) == Err::<WavView, Error>(e),
            },
    {
        let cs = parse_chunks(bytes)?;
        let ghost rs = records_of(cs@);
        let mut fmt_at: usize = 0;
        let mut fmt_count: usize = 0;
        let mut data_at: usize = 0;
        let mut data_count: usize = 0;
        let mut others: Vec<Chunk> = Vec::new();
        let mut i: usize = 0;
        while i < cs.len()
            invariant
                i <= cs@.len(),
                rs == records_of(cs@),
                fmt_count == rs.subrange(0, i as int).filter(fmt_records()).len(),
                fmt_count > 0 ==> fmt_at < i && rs.subrange(0, i as int).filter(fmt_records())[0]
                    == rs[fmt_at as int],
                data_count == rs.subrange(0, i as int).filter(data_records()).len(),
                data_count > 0 ==> data_at < i && rs.subrange(0, i as int).filter(data_records())[0]
                    == rs[data_at as int],
                records_of(others@) == rs.subrange(0, i as int).filter(other_records()),
                all_canonical(cs@),
                all_canonical(others@),
            decreases cs@.len() - i,
        {
            let ghost before = rs.subrange(0, i as int);
            proof {
                assert(rs.subrange(0, i + 1) =~= before.push(rs[i as int]));
                lemma_filter_push(before, rs[i as int], fmt_records());
                lemma_filter_push(before, rs[i as int], data_records());
                lemma_filter_push(before, rs[i as int], other_records());
                before.lemma_filter_len(fmt_records());
                before.lemma_filter_len(data_records());
            }
            let c = &cs[i];
            if c.id == ChunkTag::Fmt {
                if fmt_count == 0 {
                    fmt_at = i;
                }
                fmt_count = fmt_count + 1;
            } else if c.id == ChunkTag::Data {
                if data_count == 0 {
                    data_at = i;
                }
                data_count = data_count + 1;
            } else {
                let copy = Chunk { id: c.id, bytes: slice_to_vec(c.bytes.as_slice()) };
                let ghost kept = others@;
                others.push(copy);
                assert(records_of(others@) =~= records_of(kept).push(c@));
            }
            i = i + 1;
        }
        assert(rs.subrange(0, i as int) =~= rs);
        if fmt_count != 1 {
            return Err(Error::NoFmtChunkFound);
        }
        if data_count != 1 {
            return Err(Error::NoDataChunkFound);
        }
        let fmt = Fmt::from_chunk(&cs[fmt_at])?;
        let data = match Data::from_chunk(&fmt, &cs[data_at]) {
            Ok(d) => d,
            Err(e) => return Err(e),
        };
        Ok(Wav { fmt, data, chunks: others })
    }

    /// Create a [`Wav`] struct from samples.
    ///
    /// The rate and the channel count are stored in their 32-bit and 16-bit fields;
    /// larger values keep their low bits.
    pub fn from_data(data: Data, sample_rate: usize, num_channels: usize) -> (r: Self)
        ensures
            r.fmt == (Fmt {
                sample_rate: sample_rate as u32,
                num_channels: num_channels as u16,
                bit_depth: data@.bit_depth(),
            }),
            r.data == data,
            r.chunks@.len() == 0,
    {
        let bit_depth: u16 = match &data {
            Data::BitDepth8(_) => 8,
            Data::BitDepth16(_) => 16,
            Data::BitDepth24(_) => 24,
        };
        let fmt = Fmt {
            sample_rate: sample_rate as u32,
            num_channels: num_channels as u16,
            bit_depth,
        };
        Wav { fmt, data, chunks: Vec::new() }
    }

    /// Convert a [`Wav`] instance into bytes: the RIFF header, the `fmt ` chunk, the
    /// `data` chunk, then every other chunk in order, each padded to an even length.
    /// Chunks of `chunks` tagged `fmt ` or `data` are left out, so that the bytes hold
    /// one of each and read back.
    pub fn to_bytes(&self) -> (r: Vec<u8>)
        requires
            riff_len(self@) <= u32::MAX,
        ensures
            r@ == encode_wav(self@),
    {
        let ghost w = self@;
        let ghost rs = w.chunks;
        proof {
            assert forall|i: int| 0 <= i < rs.len() implies (#[trigger] rs[i]).code.len() == 4 by {
                self.chunks@[i].id.lemma_code_len();
            }
            lemma_riff_len(w);
        }
        let fmt_chunk = self.fmt.to_chunk();
        let data_chunk = self.data.to_chunk();
        let ghost head = frame(fmt_chunk@) + frame(data_chunk@);
        assert(fmt_chunk@ == ChunkRecord { code: fmt_code(), payload: encode_fmt(w.fmt) });
        assert(data_chunk@ == ChunkRecord { code: data_code(), payload: encode_samples(w.data) });
        assert(wav_body(w) == head + frames(rs));
        let mut body = fmt_chunk.to_bytes();
        let mut data_bytes = data_chunk.to_bytes();
        body.append(&mut data_bytes);
        let mut i: usize = 0;
        assert(rs.subrange(0, 0) =~= Seq::<ChunkRecord>::empty());
        assert(frames(Seq::<ChunkRecord>::empty()) == Seq::<u8>::empty());
        assert(body@ =~= head + frames(rs.subrange(0, 0)));
        while i < self.chunks.len()
            invariant
                i <= self.chunks@.len(),
                w == self@,
                rs == records_of(self.chunks@),
                4 + (head + frames(rs)).len() <= u32::MAX,
                body@ == head + frames(rs.subrange(0, i as int)),
            decreases self.chunks@.len() - i,
        {
            let c = &self.chunks[i];
            proof {
                let done = rs.subrange(0, i as int);
                assert(rs.subrange(0, i + 1) =~= done.push(rs[i as int]));
                lemma_frames_push(done, rs[i as int]);
                assert(rs =~= rs.subrange(0, i + 1) + rs.subrange(i + 1, rs.len() as int));
                lemma_frames_add(rs.subrange(0, i + 1), rs.subrange(i + 1, rs.len() as int));
                assert(rs[i as int] == c@);
            }
            if c.id != ChunkTag::Fmt && c.id != ChunkTag::Data {
                let mut framed = c.to_bytes();
                body.append(&mut framed);
            }
            i = i + 1;
            assert(body@ =~= head + frames(rs.subrange(0, i as int)));
        }
        assert(rs.subrange(0, i as int) =~= rs);
        let mut out: Vec<u8> = Vec::new();
        out.push(0x52);
        out.push(0x49);
        out.push(0x46);
        out.push(0x46);
        push_u32(&mut out, (body.len() + 4) as u32);
        out.push(0x57);
        out.push(0x41);
        out.push(0x56);
        out.push(0x45);
        out.append(&mut body);
        reveal(encode_wav);
        assert(out@ =~= encode_wav(w));
        out
    }
}

} // verus!
